//! Allocation of users to scenarios: each active scenario gets a share of the
//! users in proportion to its weight, in the order that the scheduler decides.

use vstd::prelude::*;
use vstd::seq_lib::{lemma_flatten_concat, lemma_multiset_commutative};

use crate::goose::Scenario;
use crate::GooseError;
use crate::scheduler::{
    lemma_round_robin_allocates_all, lists_view, round_robin, round_robin_exec, total_len,
    GooseScheduler,
};
use crate::text::{decimal, find_text, lemma_decimal_injective, lemma_decimal_len, occurs_at, unsigned_text};
use crate::util::{chars_of, gcd, gcd_of};

verus! {

/// `text` contains `pattern` somewhere.
pub open spec fn contains_text(text: Seq<char>, pattern: Seq<char>) -> bool {
    exists|i: int| occurs_at(text, pattern, i)
}

/// The texts of a list of names.
pub open spec fn names_view(names: Seq<String>) -> Seq<Seq<char>> {
    names.map_values(|s: String| s@)
}

/// A scenario is active when no scenarios were named, or when its machine name
/// contains one of the names.
pub open spec fn scenario_active(machine_name: Seq<char>, active: Seq<Seq<char>>) -> bool {
    active.len() == 0 || exists|i: int| 0 <= i < active.len() && contains_text(machine_name, #[trigger] active[i])
}

/// Determine if the scenario is active: all scenarios are when none were named,
/// else those whose machine name contains one of the names.
pub fn scenario_is_active(scenario: &Scenario, active: &[String]) -> (b: bool)
    ensures
        b == scenario_active(scenario.machine_name@, names_view(active@)),
{
    let ghost act = names_view(active@);
    if active.len() == 0 {
        return true;
    }
    let name = chars_of(scenario.machine_name.as_str());
    let mut i: usize = 0;
    while i < active.len()
        invariant
            i <= active@.len(),
            act == names_view(active@),
            name@ == scenario.machine_name@,
            forall|j: int| 0 <= j < i ==> !contains_text(name@, #[trigger] act[j]),
        decreases active@.len() - i,
    {
        let pattern = chars_of(active[i].as_str());
        match find_text(&name, &pattern) {
            Some(p) => {
                proof {
                    assert(occurs_at(name@, act[i as int], p as int));
                    assert(contains_text(name@, act[i as int]));
                }
                return true;
            },
            None => {},
        }
        i = i + 1;
    }
    false
}

/// The sum of the weights of the scenarios.
pub open spec fn weight_total(ss: Seq<Scenario>) -> nat
    decreases ss.len(),
{
    if ss.len() == 0 {
        0
    } else {
        weight_total(ss.drop_last()) + ss.last().weight as nat
    }
}

/// The greatest common divisor of the weights of the active scenarios; zero when
/// none is active.
pub open spec fn active_gcd(ss: Seq<Scenario>, active: Seq<Seq<char>>) -> nat
    decreases ss.len(),
{
    if ss.len() == 0 {
        0
    } else {
        let u = active_gcd(ss.drop_last(), active);
        if scenario_active(ss.last().machine_name@, active) {
            if u == 0 {
                ss.last().weight as nat
            } else {
                gcd_of(u, ss.last().weight as nat)
            }
        } else {
            u
        }
    }
}

/// `n` copies of `i`.
pub open spec fn copies(i: usize, n: nat) -> Seq<usize> {
    Seq::new(n, |_j: int| i)
}

/// For each active scenario, in order, its index as often as its weight divided by `g`.
pub open spec fn scenario_blocks(ss: Seq<Scenario>, active: Seq<Seq<char>>, g: nat) -> Seq<Seq<usize>>
    decreases ss.len(),
{
    if ss.len() == 0 {
        Seq::empty()
    } else {
        let prev = scenario_blocks(ss.drop_last(), active, g);
        if scenario_active(ss.last().machine_name@, active) {
            prev.push(copies((ss.len() - 1) as usize, ss.last().weight as nat / g))
        } else {
            prev
        }
    }
}

/// How many users scenario `k` gets out of one allocation: its weight divided by
/// the common divisor of the active weights when it is active, else none.
pub open spec fn scenario_share(ss: Seq<Scenario>, active: Seq<Seq<char>>, k: usize) -> nat {
    if k < ss.len() && scenario_active(ss[k as int].machine_name@, active) {
        ss[k as int].weight as nat / active_gcd(ss, active)
    } else {
        0
    }
}

/// How often `k` occurs in `n` copies of `i`.
proof fn lemma_copies_count(i: usize, n: nat, k: usize)
    ensures
        copies(i, n).to_multiset().count(k) == if k == i { n } else { 0 },
    decreases n,
{
    broadcast use vstd::multiset::group_multiset_axioms;
    broadcast use vstd::seq_lib::group_to_multiset_ensures;
    broadcast use vstd::multiset::lemma_multiset_empty_len;

    if n == 0 {
        assert(copies(i, n).to_multiset().len() == 0);
    } else {
        let shorter = copies(i, (n - 1) as nat);
        lemma_copies_count(i, (n - 1) as nat, k);
        assert(copies(i, n) =~= shorter.push(i));
        shorter.to_multiset_ensures();
        assert(shorter.push(i).to_multiset() =~= shorter.to_multiset().insert(i));
        assert(copies(i, n).to_multiset() =~= shorter.to_multiset().insert(i));
    }
}

/// Each scenario index occurs in the blocks of a prefix as often as its share.
proof fn lemma_blocks_count(ss: Seq<Scenario>, active: Seq<Seq<char>>, g: nat, k: usize)
    requires
        ss.len() <= usize::MAX,
    ensures
        scenario_blocks(ss, active, g).flatten().to_multiset().count(k) == if k < ss.len()
            && scenario_active(ss[k as int].machine_name@, active) {
            ss[k as int].weight as nat / g
        } else {
            0
        },
    decreases ss.len(),
{
    broadcast use vstd::multiset::group_multiset_axioms;
    broadcast use vstd::seq_lib::group_to_multiset_ensures;
    broadcast use vstd::multiset::lemma_multiset_empty_len;

    if ss.len() == 0 {
        assert(Seq::<Seq<usize>>::empty().flatten() =~= Seq::<usize>::empty());
        assert(Seq::<usize>::empty().to_multiset().len() == 0);
    } else {
        let prev = scenario_blocks(ss.drop_last(), active, g);
        lemma_blocks_count(ss.drop_last(), active, g, k);
        if scenario_active(ss.last().machine_name@, active) {
            let b = copies((ss.len() - 1) as usize, ss.last().weight as nat / g);
            prev.lemma_flatten_push(b);
            lemma_multiset_commutative(prev.flatten(), b);
            lemma_copies_count((ss.len() - 1) as usize, ss.last().weight as nat / g, k);
        }
        if k < ss.len() - 1 {
            assert(ss.drop_last()[k as int] == ss[k as int]);
        }
    }
}

/// Taking the last item from list `c` takes that item from everything there is.
proof fn lemma_pop_flatten(ls: Seq<Seq<usize>>, c: int)
    requires
        0 <= c < ls.len(),
        ls[c].len() > 0,
    ensures
        ls.flatten().to_multiset() == ls.update(c, ls[c].drop_last()).flatten().to_multiset().insert(
            ls[c].last(),
        ),
{
    broadcast use vstd::multiset::group_multiset_axioms;

    let l = ls[c];
    let before = ls.take(c);
    let after = ls.skip(c + 1);
    let upd = ls.update(c, l.drop_last());
    assert(ls =~= before + seq![l] + after);
    assert(upd =~= before + seq![l.drop_last()] + after);
    lemma_flatten_concat(before + seq![l], after);
    lemma_flatten_concat(before, seq![l]);
    lemma_flatten_concat(before + seq![l.drop_last()], after);
    lemma_flatten_concat(before, seq![l.drop_last()]);
    seq![l].lemma_flatten_one_element();
    seq![l.drop_last()].lemma_flatten_one_element();
    lemma_multiset_commutative(before.flatten() + l, after.flatten());
    lemma_multiset_commutative(before.flatten(), l);
    lemma_multiset_commutative(before.flatten() + l.drop_last(), after.flatten());
    lemma_multiset_commutative(before.flatten(), l.drop_last());
    assert(l =~= l.drop_last().push(l.last()));
    l.drop_last().to_multiset_ensures();
    assert(l.to_multiset() =~= l.drop_last().to_multiset().insert(l.last()));
    assert(ls.flatten().to_multiset() =~= upd.flatten().to_multiset().insert(l.last()));
}

/// Pick one of `items` at random.
///
/// Calls `rand::seq::SliceRandom::choose` with the thread-local generator; its
/// documentation says it returns one element of the slice, or nothing when the
/// slice is empty. Which element comes back depends on chance.
#[verifier::external_body]
fn choose_one(items: &[usize]) -> (c: Option<usize>)
    ensures
        c.is_some() == (items@.len() > 0),
        c.is_some() ==> items@.contains(c.unwrap()),
{
    rand::seq::SliceRandom::choose(items, &mut rand::thread_rng()).copied()
}

/// The lists that are left when `left[b]` items remain of each block `b`.
pub open spec fn remaining_blocks(ids: Seq<usize>, left: Seq<usize>) -> Seq<Seq<usize>> {
    Seq::new(left.len(), |b: int| copies(ids[b], left[b] as nat))
}

/// Take the items of the blocks in random order: each time, one of the blocks
/// that still has items is picked at random and gives up an item.
fn random_interleave(available: &[Vec<usize>], ids: &Vec<usize>, total: usize) -> (out: Vec<usize>)
    requires
        ids@.len() == available@.len(),
        forall|b: int| 0 <= b < available@.len() ==> #[trigger] available@[b]@ == copies(ids@[b], available@[b]@.len()),
        total == total_len(lists_view(available@)),
    ensures
        out@.to_multiset() == lists_view(available@).flatten().to_multiset(),
{
    broadcast use vstd::multiset::group_multiset_axioms;
    broadcast use vstd::seq_lib::group_to_multiset_ensures;
    broadcast use vstd::multiset::lemma_multiset_empty_len;

    let ghost avail = lists_view(available@);
    let n = available.len();
    let mut left: Vec<usize> = Vec::new();
    for b in 0..n
        invariant
            n == available@.len(),
            left@.len() == b,
            forall|j: int| 0 <= j < b ==> left@[j] == available@[j]@.len(),
    {
        left.push(available[b].len());
    }
    proof {
        assert(remaining_blocks(ids@, left@) =~= avail);
    }
    let mut out: Vec<usize> = Vec::new();
    proof {
        assert(out@.to_multiset().len() == 0);
        assert(out@.to_multiset().add(avail.flatten().to_multiset()) =~= avail.flatten().to_multiset());
    }
    while out.len() < total
        invariant
            n == available@.len(),
            left@.len() == n,
            ids@.len() == n,
            total == total_len(avail),
            out@.len() + total_len(remaining_blocks(ids@, left@)) == total,
            out@.to_multiset().add(remaining_blocks(ids@, left@).flatten().to_multiset())
                == avail.flatten().to_multiset(),
        decreases total - out@.len(),
    {
        let ghost state = remaining_blocks(ids@, left@);
        let mut candidates: Vec<usize> = Vec::new();
        for b in 0..n
            invariant
                n == left@.len(),
                forall|j: int| 0 <= j < candidates@.len() ==> #[trigger] candidates@[j] < n && left@[candidates@[j] as int] > 0,
                forall|j: int| 0 <= j < b && left@[j] > 0 ==> candidates@.contains(j as usize),
        {
            let ghost before = candidates@;
            if left[b] > 0 {
                candidates.push(b);
                proof {
                    assert(candidates@[candidates@.len() - 1] == b);
                }
            }
            proof {
                assert forall|j: int| 0 <= j < b && left@[j] > 0 implies candidates@.contains(j as usize) by {
                    assert(before.contains(j as usize));
                    let i = choose|i: int| 0 <= i < before.len() && before[i] == j as usize;
                    assert(candidates@[i] == j as usize);
                }
            }
        }
        proof {
            lemma_total_len_zero(state);
            assert(total_len(state) > 0);
            let b = choose|b: int| 0 <= b < state.len() && !(#[trigger] state[b].len() == 0);
            assert(left@[b] > 0);
            assert(candidates@.contains(b as usize));
        }
        let picked = choose_one(&candidates);
        let c = match picked {
            Some(c) => c,
            None => {
                proof {
                    assert(false);
                }
                0
            },
        };
        proof {
            assert(candidates@.contains(c));
            let j = choose|j: int| 0 <= j < candidates@.len() && candidates@[j] == c;
            assert(candidates@[j] < n && left@[candidates@[j] as int] > 0);
        }
        let k = left[c] - 1;
        left.set(c, k);
        let ghost out0 = out@;
        out.push(ids[c]);
        proof {
            let next = remaining_blocks(ids@, left@);
            let x = ids@[c as int];
            assert(copies(x, k as nat) =~= copies(x, (k + 1) as nat).drop_last());
            assert(next =~= state.update(c as int, state[c as int].drop_last()));
            assert(state[c as int].last() == x);
            lemma_pop_flatten(state, c as int);
            lemma_total_len_update(state, c as int, state[c as int].drop_last());
            assert(out@ =~= out0.push(x));
            out0.to_multiset_ensures();
            assert(out0.push(x).to_multiset() =~= out0.to_multiset().insert(x));
            assert(out@.to_multiset() =~= out0.to_multiset().insert(x));
            assert(out@.to_multiset().add(next.flatten().to_multiset())
                =~= out0.to_multiset().add(state.flatten().to_multiset()));
        }
    }
    proof {
        let rest = remaining_blocks(ids@, left@);
        lemma_total_len_zero(rest);
        assert(rest.flatten().to_multiset().len() == 0);
        assert(out@.to_multiset().add(rest.flatten().to_multiset()) =~= out@.to_multiset());
    }
    out
}

/// With nothing left in total, nothing is left in any list, and the flattening is empty.
proof fn lemma_total_len_zero(ls: Seq<Seq<usize>>)
    ensures
        total_len(ls) == 0 <==> forall|b: int| 0 <= b < ls.len() ==> #[trigger] ls[b].len() == 0,
        total_len(ls) == 0 ==> ls.flatten().len() == 0,
    decreases ls.len(),
{
    if ls.len() > 0 {
        lemma_total_len_zero(ls.drop_last());
        assert forall|b: int| 0 <= b < ls.len() - 1 implies ls.drop_last()[b] == ls[b] by {}
        if total_len(ls) == 0 {
            ls.drop_last().lemma_flatten_push(ls.last());
            assert(ls.drop_last().push(ls.last()) =~= ls);
        }
    } else {
        assert(ls.flatten() =~= Seq::<usize>::empty());
    }
}

/// Replacing one list changes the total length by the change of that list.
proof fn lemma_total_len_update(ls: Seq<Seq<usize>>, c: int, l: Seq<usize>)
    requires
        0 <= c < ls.len(),
    ensures
        total_len(ls.update(c, l)) + ls[c].len() == total_len(ls) + l.len(),
    decreases ls.len(),
{
    if c < ls.len() - 1 {
        assert(ls.update(c, l).drop_last() =~= ls.drop_last().update(c, l));
        lemma_total_len_update(ls.drop_last(), c, l);
    } else {
        assert(ls.update(c, l).drop_last() =~= ls.drop_last());
    }
}

/// The blocks that users are allocated from: for each active scenario, in order,
/// its index as often as its weight divided by the common divisor of the active weights.
pub open spec fn allocation_blocks(ss: Seq<Scenario>, active: Seq<Seq<char>>) -> Seq<Seq<usize>> {
    scenario_blocks(ss, active, active_gcd(ss, active))
}

/// `n` copies of `i`.
fn copies_exec(i: usize, n: usize) -> (v: Vec<usize>)
    ensures
        v@ == copies(i, n as nat),
{
    let mut v: Vec<usize> = Vec::new();
    for k in 0..n
        invariant
            v@ == copies(i, k as nat),
    {
        v.push(i);
        proof {
            assert(v@ =~= copies(i, (k + 1) as nat));
        }
    }
    v
}

/// Concatenate the lists in order.
fn flatten_exec(available: &[Vec<usize>]) -> (out: Vec<usize>)
    ensures
        out@ == lists_view(available@).flatten(),
{
    let ghost avail = lists_view(available@);
    let mut out: Vec<usize> = Vec::new();
    proof {
        assert(avail.take(0) =~= Seq::<Seq<usize>>::empty());
        assert(Seq::<Seq<usize>>::empty().flatten() =~= Seq::<usize>::empty());
    }
    for i in 0..available.len()
        invariant
            avail == lists_view(available@),
            out@ == avail.take(i as int).flatten(),
    {
        let ghost start = out@;
        let list = &available[i];
        for k in 0..list.len()
            invariant
                list@ == avail[i as int],
                out@ == start + list@.take(k as int),
        {
            out.push(list[k]);
            proof {
                assert(out@ =~= start + list@.take(k + 1));
            }
        }
        proof {
            assert(list@.take(list@.len() as int) =~= list@);
            assert(avail.take(i + 1) =~= avail.take(i as int).push(avail[i as int]));
            avail.take(i as int).lemma_flatten_push(avail[i as int]);
        }
    }
    proof {
        assert(avail.take(avail.len() as int) =~= avail);
    }
    out
}

/// Use the scheduler to build a properly weighted list of scenarios, one entry
/// per user to launch: each active scenario's index occurs as often as its weight
/// divided by the common divisor of the active weights. Round robin takes one of
/// each scenario in turn, serial takes each scenario's share whole, in order, and
/// random picks the scenario of each entry at random among those with entries left.
pub fn allocate_scenarios(
    scenarios: &[Scenario],
    active: &[String],
    scheduler: &GooseScheduler,
) -> (weighted_scenarios: Vec<usize>)
    requires
        forall|i: int| 0 <= i < scenarios@.len() ==> #[trigger] scenarios@[i].weight > 0,
        weight_total(scenarios@) <= usize::MAX,
    ensures
        forall|k: usize| #[trigger] weighted_scenarios@.to_multiset().count(k) == scenario_share(
            scenarios@,
            names_view(active@),
            k,
        ),
        *scheduler == GooseScheduler::RoundRobin ==> weighted_scenarios@ == round_robin(
            allocation_blocks(scenarios@, names_view(active@)),
            total_len(allocation_blocks(scenarios@, names_view(active@))),
        ),
        *scheduler == GooseScheduler::Serial ==> weighted_scenarios@ == allocation_blocks(
            scenarios@,
            names_view(active@),
        ).flatten(),
{
    let ghost ss = scenarios@;
    let ghost act = names_view(active@);
    let n = scenarios.len();
    let mut u: usize = 0;
    let mut actives: Vec<bool> = Vec::new();
    proof {
        assert(ss.take(0) =~= Seq::<Scenario>::empty());
    }
    for i in 0..n
        invariant
            n == ss.len(),
            ss == scenarios@,
            act == names_view(active@),
            forall|j: int| 0 <= j < ss.len() ==> #[trigger] ss[j].weight > 0,
            u == active_gcd(ss.take(i as int), act),
            actives@.len() == i,
            forall|j: int| 0 <= j < i ==> actives@[j] == scenario_active(ss[j].machine_name@, act),
            (exists|j: int| 0 <= j < i && actives@[j]) ==> u > 0,
    {
        let is_active = scenario_is_active(&scenarios[i], active);
        proof {
            assert(ss.take(i + 1).drop_last() =~= ss.take(i as int));
            assert(ss.take(i + 1).last() == ss[i as int]);
        }
        if is_active {
            let w = scenarios[i].weight;
            if u == 0 {
                u = w;
            } else {
                u = gcd(u, w);
            }
        }
        actives.push(is_active);
        proof {
            if exists|j: int| 0 <= j < i + 1 && actives@[j] {
                let j = choose|j: int| 0 <= j < i + 1 && actives@[j];
                if j < i {
                    assert(exists|j: int| 0 <= j < i && actives@[j]);
                }
            }
        }
    }
    proof {
        assert(ss.take(n as int) =~= ss);
    }
    let ghost g = u as nat;
    let mut available: Vec<Vec<usize>> = Vec::new();
    let mut ids: Vec<usize> = Vec::new();
    let mut total: usize = 0;
    for i in 0..n
        invariant
            n == ss.len(),
            ss == scenarios@,
            g == u,
            g == active_gcd(ss, act),
            forall|j: int| 0 <= j < ss.len() ==> #[trigger] ss[j].weight > 0,
            weight_total(ss) <= usize::MAX,
            actives@.len() == n,
            forall|j: int| 0 <= j < n ==> actives@[j] == scenario_active(ss[j].machine_name@, act),
            (exists|j: int| 0 <= j < n && actives@[j]) ==> u > 0,
            lists_view(available@) == scenario_blocks(ss.take(i as int), act, g),
            ids@.len() == available@.len(),
            forall|b: int| 0 <= b < available@.len() ==> #[trigger] available@[b]@ == copies(ids@[b], available@[b]@.len()),
            total == total_len(lists_view(available@)),
            total <= weight_total(ss.take(i as int)),
    {
        proof {
            assert(ss.take(i + 1).drop_last() =~= ss.take(i as int));
            assert(ss.take(i + 1).last() == ss[i as int]);
            lemma_weight_total_prefix(ss, i + 1);
        }
        if actives[i] {
            proof {
                assert(actives@[i as int]);
            }
            let weight = scenarios[i].weight / u;
            let ghost before = lists_view(available@);
            let block = copies_exec(i, weight);
            total = total + weight;
            available.push(block);
            ids.push(i);
            proof {
                assert(lists_view(available@) =~= before.push(copies(i, weight as nat)));
                assert(before.push(copies(i, weight as nat)).drop_last() =~= before);
            }
        }
    }
    proof {
        assert(ss.take(n as int) =~= ss);
    }
    let ghost avail = lists_view(available@);
    let weighted_scenarios = match scheduler {
        GooseScheduler::RoundRobin => {
            let out = round_robin_exec(&available, total);
            proof {
                lemma_round_robin_allocates_all(avail);
            }
            out
        },
        GooseScheduler::Serial => flatten_exec(&available),
        GooseScheduler::Random => random_interleave(&available, &ids, total),
    };
    proof {
        assert forall|k: usize| #[trigger] weighted_scenarios@.to_multiset().count(k) == scenario_share(ss, act, k) by {
            lemma_blocks_count(ss, act, g, k);
        }
    }
    weighted_scenarios
}

/// The weights of a prefix add up to no more than all the weights.
proof fn lemma_weight_total_prefix(ss: Seq<Scenario>, k: int)
    requires
        0 <= k <= ss.len(),
    ensures
        weight_total(ss.take(k)) <= weight_total(ss),
        k > 0 ==> weight_total(ss.take(k)) == weight_total(ss.take(k - 1)) + ss[k - 1].weight,
    decreases ss.len(),
{
    if k > 0 {
        assert(ss.take(k).drop_last() =~= ss.take(k - 1));
    }
    if k < ss.len() {
        assert(ss.drop_last().take(k) =~= ss.take(k));
        lemma_weight_total_prefix(ss.drop_last(), k);
    } else {
        assert(ss.take(k) =~= ss);
    }
}

/// Assign a scenario to each of `total_users` users by walking the weighted list
/// of scenarios over and over: user `i` gets entry `i` modulo its length.
pub fn assign_users(weighted_scenarios: &[usize], total_users: usize) -> (assigned: Vec<usize>)
    requires
        weighted_scenarios@.len() > 0,
        total_users > 0,
    ensures
        assigned@.len() == total_users,
        forall|i: int| 0 <= i < total_users ==> #[trigger] assigned@[i] == weighted_scenarios@[i % weighted_scenarios@.len() as int],
{
    let n = weighted_scenarios.len();
    let mut assigned: Vec<usize> = Vec::new();
    let mut next: usize = 0;
    let ghost mut rounds: int = 0;
    while assigned.len() < total_users
        invariant
            n == weighted_scenarios@.len(),
            n > 0,
            assigned@.len() <= total_users,
            next < n,
            rounds >= 0,
            assigned@.len() == rounds * n + next,
            forall|i: int| 0 <= i < assigned@.len() ==> #[trigger] assigned@[i] == weighted_scenarios@[i % n as int],
        decreases total_users - assigned@.len(),
    {
        proof {
            vstd::arithmetic::div_mod::lemma_fundamental_div_mod_converse(
                assigned@.len() as int,
                n as int,
                rounds,
                next as int,
            );
        }
        assigned.push(weighted_scenarios[next]);
        if next + 1 == n {
            next = 0;
            proof {
                rounds = rounds + 1;
                assert(assigned@.len() == rounds * n + next) by (nonlinear_arith)
                    requires
                        assigned@.len() == (rounds - 1) * n + n,
                        next == 0,
                ;
            }
        } else {
            next = next + 1;
        }
    }
    assigned
}


/// The explanation given when no host is known for the scenario named `name`.
pub open spec fn missing_host_detail(name: Seq<char>) -> Seq<char> {
    "A host must be defined via the --host option, the GooseAttack.set_default() function, or the Scenario.set_host() function (no host defined for "@
        + name + ")."@
}

/// Every scenario in `ss` before position `k` sets a host of its own.
pub open spec fn hosts_set_before(ss: Seq<Scenario>, k: int) -> bool {
    forall|j: int| 0 <= j < k ==> (#[trigger] ss[j]).host is Some
}

/// Checks that every scenario has a host to load test: the configured one, the
/// default one, or its own. Fails naming the first scenario left without one.
pub fn validate_host(
    configuration_host: &str,
    default_host: &Option<String>,
    scenarios: &[Scenario],
) -> (r: Result<(), GooseError>)
    ensures
        r is Ok <==> (configuration_host@.len() > 0 || default_host is Some
            || hosts_set_before(scenarios@, scenarios@.len() as int)),
        r is Err ==> exists|k: int|
            0 <= k < scenarios@.len() && scenarios@[k].host is None
                && hosts_set_before(scenarios@, k) && match r {
                Err(GooseError::InvalidOption { option, value, detail }) => option@ == "--host"@
                    && value@ == ""@ && detail@ == missing_host_detail(scenarios@[k].name@),
                _ => false,
            },
{
    if configuration_host.unicode_len() > 0 || default_host.is_some() {
        return Ok(());
    }
    let mut k: usize = 0;
    while k < scenarios.len()
        invariant
            k <= scenarios@.len(),
            hosts_set_before(scenarios@, k as int),
            configuration_host@.len() == 0,
            default_host is None,
        decreases scenarios@.len() - k,
    {
        if scenarios[k].host.is_none() {
            let mut detail = String::new();
            detail.append(
                "A host must be defined via the --host option, the GooseAttack.set_default() function, or the Scenario.set_host() function (no host defined for ",
            );
            detail.append(scenarios[k].name.as_str());
            detail.append(").");
            proof {
                reveal_strlit("--host");
                reveal_strlit("");
            }
            return Err(
                GooseError::InvalidOption {
                    option: "--host".to_string(),
                    value: "".to_string(),
                    detail,
                },
            );
        }
        k = k + 1;
    }
    Ok(())
}


/// The `k`-th machine name tried for a scenario whose own is `name`: the name
/// itself, then the name with `_1`, `_2` and so on.
pub open spec fn machine_name_candidate(name: Seq<char>, k: nat) -> Seq<char> {
    if k == 0 {
        name
    } else {
        name + "_"@ + decimal(k)
    }
}

/// Some scenario already has the machine name `c`.
pub open spec fn machine_name_taken(taken: Seq<String>, c: Seq<char>) -> bool {
    exists|i: int| 0 <= i < taken.len() && (#[trigger] taken[i])@ == c
}

proof fn lemma_candidates_differ(name: Seq<char>, j: nat, k: nat)
    requires
        j < k,
    ensures
        machine_name_candidate(name, j) != machine_name_candidate(name, k),
{
    reveal_strlit("_");
    lemma_decimal_len(k);
    let ck = machine_name_candidate(name, k);
    if j == 0 {
        assert(ck.len() > name.len());
    } else {
        let cj = machine_name_candidate(name, j);
        if cj == ck {
            assert(cj.skip(name.len() as int + 1) =~= decimal(j));
            assert(ck.skip(name.len() as int + 1) =~= decimal(k));
            lemma_decimal_injective(j, k);
        }
    }
}

/// As many machine names are taken as candidates were found taken.
proof fn lemma_taken_candidates_fit(taken: Seq<String>, name: Seq<char>, c: nat)
    requires
        forall|j: nat| j <= c ==> machine_name_taken(taken, #[trigger] machine_name_candidate(name, j)),
    ensures
        c + 1 <= taken.len(),
    decreases c,
{
    assert(machine_name_taken(taken, machine_name_candidate(name, c)));
    let i = choose|i: int| 0 <= i < taken.len() && (#[trigger] taken[i])@ == machine_name_candidate(name, c);
    if c > 0 {
        let rest = taken.remove(i);
        assert forall|j: nat| j <= (c - 1) as nat implies machine_name_taken(rest, #[trigger] machine_name_candidate(name, j)) by {
            assert(machine_name_taken(taken, machine_name_candidate(name, j)));
            let k = choose|k: int| 0 <= k < taken.len() && (#[trigger] taken[k])@ == machine_name_candidate(name, j);
            lemma_candidates_differ(name, j, c);
            assert(k != i);
            if k < i {
                assert(rest[k] == taken[k]);
            } else {
                assert(rest[k - 1] == taken[k]);
            }
        }
        lemma_taken_candidates_fit(rest, name, (c - 1) as nat);
    }
}

/// Whether some scenario already has the machine name `candidate`.
fn name_taken(names: &Vec<String>, candidate: &String) -> (b: bool)
    ensures
        b == machine_name_taken(names@, candidate@),
{
    let mut i: usize = 0;
    while i < names.len()
        invariant
            i <= names@.len(),
            forall|k: int| 0 <= k < i ==> (#[trigger] names@[k])@ != candidate@,
        decreases names@.len() - i,
    {
        if names[i] == *candidate {
            return true;
        }
        i = i + 1;
    }
    false
}

/// Register a scenario: it is numbered after those registered before it, and its
/// machine name is made unique: the first of its own name, then its name with
/// `_1`, `_2` and so on, that no registered scenario has yet.
pub fn register_scenario(scenarios: &mut Vec<Scenario>, machine_names: &mut Vec<String>, scenario: Scenario)
    requires
        old(machine_names)@.len() < u32::MAX,
    ensures
        exists|k: nat|
            {
                let chosen = #[trigger] machine_name_candidate(scenario.machine_name@, k);
                &&& !machine_name_taken(old(machine_names)@, chosen)
                &&& forall|j: nat| j < k ==> machine_name_taken(
                    old(machine_names)@,
                    #[trigger] machine_name_candidate(scenario.machine_name@, j),
                )
                &&& final(machine_names)@.len() == old(machine_names)@.len() + 1
                &&& final(machine_names)@.take(old(machine_names)@.len() as int) == old(machine_names)@
                &&& final(machine_names)@.last()@ == chosen
                &&& final(scenarios)@.len() == old(scenarios)@.len() + 1
                &&& final(scenarios)@.take(old(scenarios)@.len() as int) == old(scenarios)@
                &&& final(scenarios)@.last().machine_name@ == chosen
                &&& final(scenarios)@.last().scenarios_index == old(scenarios)@.len()
                &&& final(scenarios)@.last().name == scenario.name
                &&& final(scenarios)@.last().weight == scenario.weight
                &&& final(scenarios)@.last().host == scenario.host
                &&& final(scenarios)@.last().transactions == scenario.transactions
            },
{
    let ghost base = scenario.machine_name@;
    let mut conflicts: u32 = 0;
    let mut candidate = scenario.machine_name.clone();
    while name_taken(machine_names, &candidate)
        invariant
            machine_names@ == old(machine_names)@,
            machine_names@.len() < u32::MAX,
            base == scenario.machine_name@,
            candidate@ == machine_name_candidate(base, conflicts as nat),
            forall|j: nat| j < conflicts ==> machine_name_taken(
                machine_names@,
                #[trigger] machine_name_candidate(base, j),
            ),
            conflicts <= machine_names@.len(),
        decreases machine_names@.len() - conflicts,
    {
        proof {
            assert forall|j: nat| j <= conflicts implies machine_name_taken(
                machine_names@,
                #[trigger] machine_name_candidate(base, j),
            ) by {}
            lemma_taken_candidates_fit(machine_names@, base, conflicts as nat);
        }
        conflicts = conflicts + 1;
        let mut next = scenario.machine_name.clone();
        next.append("_");
        let number = unsigned_text(conflicts as u128);
        next.append(number.as_str());
        candidate = next;
        proof {
            reveal_strlit("_");
        }
    }
    let ghost old_names = machine_names@;
    let ghost old_scenarios = scenarios@;
    machine_names.push(candidate.clone());
    let index = scenarios.len();
    scenarios.push(
        Scenario {
            name: scenario.name,
            machine_name: candidate,
            scenarios_index: index,
            weight: scenario.weight,
            host: scenario.host,
            transactions: scenario.transactions,
        },
    );
    proof {
        assert(machine_names@.take(old_names.len() as int) =~= old_names);
        assert(scenarios@.take(old_scenarios.len() as int) =~= old_scenarios);
    }
}

} // verus!
