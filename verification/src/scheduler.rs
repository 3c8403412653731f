//! Allocation of weighted transactions into the order in which a user runs them.

use vstd::multiset::Multiset;
use std::collections::BTreeMap;
use vstd::prelude::*;

use crate::goose::{Scenario, Transaction};
use crate::util::{gcd, gcd_of};
use crate::histogram::{keys_in_order, sorted_keys};

verus! {

/// Used to define the order `Scenario`s and `Transaction`s are allocated.
#[derive(Clone, Copy, Debug, PartialEq, Eq, Structural)]
pub enum GooseScheduler {
    /// Allocate one of each available type at a time (default).
    RoundRobin,
    /// Allocate in the order and weighting defined.
    Serial,
    /// Allocate in a random order.
    Random,
}

/// The number of items held in all the inner sequences together.
pub open spec fn total_len(rem: Seq<Seq<usize>>) -> nat
    decreases rem.len(),
{
    if rem.len() == 0 {
        0
    } else {
        total_len(rem.drop_last()) + rem.last().len()
    }
}

/// One round-robin pass: the last item of each non-empty inner sequence, in order.
pub open spec fn rr_pass(rem: Seq<Seq<usize>>) -> Seq<usize>
    decreases rem.len(),
{
    if rem.len() == 0 {
        Seq::empty()
    } else {
        rr_pass(rem.drop_last()) + (if rem.last().len() > 0 {
            seq![rem.last().last()]
        } else {
            Seq::empty()
        })
    }
}

/// What one round-robin pass leaves behind: each inner sequence without its last item.
pub open spec fn rr_rest(rem: Seq<Seq<usize>>) -> Seq<Seq<usize>> {
    rem.map_values(|r: Seq<usize>| if r.len() > 0 { r.drop_last() } else { r })
}

pub proof fn lemma_rr_pass_len(rem: Seq<Seq<usize>>)
    ensures
        total_len(rr_rest(rem)) + rr_pass(rem).len() == total_len(rem),
        total_len(rem) > 0 ==> rr_pass(rem).len() > 0,
        rr_pass(rem).len() <= rem.len(),
    decreases rem.len(),
{
    if rem.len() > 0 {
        lemma_rr_pass_len(rem.drop_last());
        assert(rr_rest(rem).drop_last() =~= rr_rest(rem.drop_last()));
    }
}

/// Round-robin allocation: passes are made until at least `total` items were taken
/// (at least one pass is always made), or nothing is left.
pub open spec fn round_robin(rem: Seq<Seq<usize>>, total: nat) -> Seq<usize>
    decreases total_len(rem),
{
    let items = rr_pass(rem);
    if items.len() >= total || items.len() == 0 {
        items
    } else {
        proof {
            lemma_rr_pass_len(rem);
        }
        items + round_robin(rr_rest(rem), (total - items.len()) as nat)
    }
}

/// The first `counts[i]` items of each inner sequence.
pub open spec fn prefixes(avail: Seq<Seq<usize>>, counts: Seq<usize>) -> Seq<Seq<usize>> {
    Seq::new(avail.len(), |i: int| avail[i].take(counts[i] as int))
}

/// The outcome of scheduling `avail` with `scheduler`, asking for `total` items.
///
/// Round robin is a function of its input. Serial concatenates the inner sequences.
/// Random concatenates a permutation of each inner sequence.
pub open spec fn scheduled(
    avail: Seq<Seq<usize>>,
    total: nat,
    scheduler: GooseScheduler,
    out: Seq<usize>,
) -> bool {
    match scheduler {
        GooseScheduler::RoundRobin => out == round_robin(avail, total),
        GooseScheduler::Serial => out == avail.flatten(),
        GooseScheduler::Random => exists|blocks: Seq<Seq<usize>>|
            #![trigger blocks.flatten()]
            {
                &&& blocks.len() == avail.len()
                &&& forall|i: int|
                    0 <= i < avail.len() ==> #[trigger] blocks[i].to_multiset()
                        == avail[i].to_multiset()
                &&& out == blocks.flatten()
            },
    }
}

/// Shuffle a list of transaction indices.
///
/// Calls `rand::seq::SliceRandom::shuffle` with the thread-local generator. The order
/// that comes out depends on chance: the contract claims only that the items are
/// the same, counted with multiplicity.
#[verifier::external_body]
fn shuffle_indices(v: &mut Vec<usize>)
    ensures
        final(v)@.to_multiset() == old(v)@.to_multiset(),
{
    rand::seq::SliceRandom::shuffle(v.as_mut_slice(), &mut rand::thread_rng());
}

pub(crate) fn round_robin_exec(available: &[Vec<usize>], total: usize) -> (out: Vec<usize>)
    requires
        total <= total_len(lists_view(available@)),
    ensures
        out@ == round_robin(lists_view(available@), total as nat),
{
    let ghost avail = lists_view(available@);
    let n = available.len();
    let mut counts: Vec<usize> = Vec::new();
    for i in 0..n
        invariant
            n == available@.len(),
            avail == lists_view(available@),
            counts@.len() == i,
            forall|j: int| 0 <= j < i ==> counts@[j] == avail[j].len(),
    {
        counts.push(available[i].len());
    }
    proof {
        assert forall|j: int| 0 <= j < n implies #[trigger] avail[j].take(counts@[j] as int) == avail[j] by {
            assert(avail[j].take(avail[j].len() as int) =~= avail[j]);
        }
        assert(prefixes(avail, counts@) =~= avail);
    }
    let mut out: Vec<usize> = Vec::new();
    let ghost mut t: nat = total as nat;
    loop
        invariant_except_break
            t <= total_len(prefixes(avail, counts@)),
            out@.len() + t == total,
            out@ + round_robin(prefixes(avail, counts@), t) == round_robin(avail, total as nat),
        invariant
            n == available@.len(),
            avail == lists_view(available@),
            counts@.len() == n,
            forall|j: int| 0 <= j < n ==> counts@[j] <= avail[j].len(),
        ensures
            out@ == round_robin(avail, total as nat),
        decreases total_len(prefixes(avail, counts@)),
    {
        let ghost rem = prefixes(avail, counts@);
        let ghost out0 = out@;
        let ghost counts0 = counts@;
        for i in 0..n
            invariant
                n == available@.len(),
                avail == lists_view(available@),
                counts@.len() == n,
                rem.len() == n,
                rem == prefixes(avail, counts0),
                counts0.len() == n,
                forall|j: int| 0 <= j < n ==> counts0[j] <= avail[j].len(),
                forall|j: int| 0 <= j < i ==> counts@[j] == (if counts0[j] > 0 { counts0[j] - 1 } else { 0 }),
                forall|j: int| i <= j < n ==> counts@[j] == counts0[j],
                out@ == out0 + rr_pass(rem.take(i as int)),
        {
            assert(rem.take(i + 1).drop_last() =~= rem.take(i as int));
            let c = counts[i];
            assert(counts@[i as int] == counts0[i as int]);
            assert(available@[i as int]@ == avail[i as int]);
            if c > 0 {
                let x = available[i][c - 1];
                out.push(x);
                counts.set(i, c - 1);
                assert(rem.take(i + 1).last() == avail[i as int].take(c as int));
            }
            assert(out@ =~= out0 + rr_pass(rem.take(i + 1)));
        }
        proof {
            assert(rem.take(n as int) =~= rem);
            assert(prefixes(avail, counts@) =~= rr_rest(rem)) by {
                assert forall|j: int| 0 <= j < n implies prefixes(avail, counts@)[j] == rr_rest(rem)[j] by {
                    if counts0[j] > 0 {
                        assert(avail[j].take(counts0[j] - 1) =~= avail[j].take(counts0[j] as int).drop_last());
                    }
                }
            }
            lemma_rr_pass_len(rem);
        }
        if out.len() >= total {
            proof {
                assert(rr_pass(rem).len() >= t);
                assert(out@ =~= out0 + round_robin(rem, t));
            }
            break;
        }
        proof {
            let items = rr_pass(rem);
            assert(items.len() < t);
            assert(items.len() > 0);
            assert(round_robin(rem, t) == items + round_robin(rr_rest(rem), (t - items.len()) as nat));
            assert((out0 + items) + round_robin(rr_rest(rem), (t - items.len()) as nat)
                =~= out0 + (items + round_robin(rr_rest(rem), (t - items.len()) as nat)));
            t = (t - items.len()) as nat;
        }
    }
    out
}

/// The view of a list of lists of transaction indices.
pub open spec fn lists_view(v: Seq<Vec<usize>>) -> Seq<Seq<usize>> {
    v.map_values(|x: Vec<usize>| x@)
}

/// Each inner sequence repeats a single item.
pub open spec fn constant_blocks(avail: Seq<Seq<usize>>) -> bool {
    forall|i: int, j: int, k: int|
        0 <= i < avail.len() && 0 <= j < avail[i].len() && 0 <= k < avail[i].len()
            ==> #[trigger] avail[i][j] == #[trigger] avail[i][k]
}

/// A permutation of a sequence that repeats a single item is that sequence itself.
pub proof fn lemma_permutation_of_constant(a: Seq<usize>, b: Seq<usize>)
    requires
        b.to_multiset() == a.to_multiset(),
        forall|j: int, k: int| 0 <= j < a.len() && 0 <= k < a.len() ==> a[j] == a[k],
    ensures
        b == a,
{
    broadcast use vstd::seq_lib::group_seq_properties;
    a.to_multiset_ensures();
    b.to_multiset_ensures();
    assert(b.len() == a.len());
    assert forall|k: int| 0 <= k < b.len() implies b[k] == a[k] by {
        assert(b.contains(b[k]));
        assert(a.to_multiset().count(b[k]) > 0);
        assert(a.contains(b[k]));
    }
    assert(b =~= a);
}

/// Law: when every weighted list repeats one transaction (as weighting builds
/// them), random scheduling gives the same order as serial scheduling.
pub proof fn lemma_random_of_constant_blocks_is_serial(
    avail: Seq<Seq<usize>>,
    total: nat,
    out: Seq<usize>,
)
    requires
        scheduled(avail, total, GooseScheduler::Random, out),
        constant_blocks(avail),
    ensures
        out == avail.flatten(),
{
    let blocks = choose|blocks: Seq<Seq<usize>>|
        #![trigger blocks.flatten()]
        {
            &&& blocks.len() == avail.len()
            &&& forall|i: int|
                0 <= i < avail.len() ==> #[trigger] blocks[i].to_multiset() == avail[i].to_multiset()
            &&& out == blocks.flatten()
        };
    assert forall|i: int| 0 <= i < avail.len() implies blocks[i] == avail[i] by {
        assert(blocks[i].to_multiset() == avail[i].to_multiset());
        assert forall|j: int, k: int| 0 <= j < avail[i].len() && 0 <= k < avail[i].len()
            implies avail[i][j] == avail[i][k] by {
            assert(avail[i][j] == avail[i][k]);
        }
        lemma_permutation_of_constant(avail[i], blocks[i]);
    }
    assert(blocks =~= avail);
}

/// Return a list of transactions in the order to be run.
///
/// Round robin takes one of each kind in turn until `total` were taken; serial
/// takes each list whole, in order; random takes each list whole after shuffling it.
pub fn schedule_unsequenced_transactions(
    available_unsequenced_transactions: &[Vec<usize>],
    total_transactions: usize,
    scheduler: &GooseScheduler,
) -> (weighted_transactions: Vec<usize>)
    requires
        *scheduler == GooseScheduler::RoundRobin ==> total_transactions <= total_len(
            lists_view(available_unsequenced_transactions@),
        ),
    ensures
        scheduled(
            lists_view(available_unsequenced_transactions@),
            total_transactions as nat,
            *scheduler,
            weighted_transactions@,
        ),
{
    let ghost avail = lists_view(available_unsequenced_transactions@);
    match scheduler {
        GooseScheduler::RoundRobin => round_robin_exec(
            available_unsequenced_transactions,
            total_transactions,
        ),
        _ => {
            let n = available_unsequenced_transactions.len();
            let mut out: Vec<usize> = Vec::new();
            let ghost mut blocks: Seq<Seq<usize>> = Seq::empty();
            for i in 0..n
                invariant
                    n == available_unsequenced_transactions@.len(),
                    avail == lists_view(available_unsequenced_transactions@),
                    *scheduler != GooseScheduler::RoundRobin,
                    blocks.len() == i,
                    forall|j: int|
                        0 <= j < i ==> #[trigger] blocks[j].to_multiset() == avail[j].to_multiset(),
                    *scheduler == GooseScheduler::Serial ==> blocks == avail.take(i as int),
                    out@ == blocks.flatten(),
            {
                let mut transactions_clone = available_unsequenced_transactions[i].clone();
                assert(transactions_clone@ == avail[i as int]);
                if *scheduler == GooseScheduler::Random {
                    shuffle_indices(&mut transactions_clone);
                }
                proof {
                    blocks.lemma_flatten_push(transactions_clone@);
                    assert(avail.take(i + 1) =~= avail.take(i as int).push(avail[i as int]));
                    blocks = blocks.push(transactions_clone@);
                }
                out.append(&mut transactions_clone);
            }
            proof {
                assert(avail.take(n as int) =~= avail);
            }
            out
        },
    }
}

proof fn lemma_total_len_is_flatten_len(rem: Seq<Seq<usize>>)
    ensures
        total_len(rem) == rem.flatten_alt().len(),
    decreases rem.len(),
{
    if rem.len() > 0 {
        lemma_total_len_is_flatten_len(rem.drop_last());
    }
}

proof fn lemma_rr_pass_multiset(rem: Seq<Seq<usize>>)
    ensures
        rr_pass(rem).to_multiset().add(rr_rest(rem).flatten_alt().to_multiset())
            == rem.flatten_alt().to_multiset(),
    decreases rem.len(),
{
    broadcast use vstd::seq_lib::lemma_multiset_commutative;
    broadcast use vstd::multiset::group_multiset_axioms;
    if rem.len() == 0 {
        assert(rr_pass(rem) =~= Seq::<usize>::empty());
        assert(rr_rest(rem).flatten_alt() =~= Seq::<usize>::empty());
        assert(rem.flatten_alt() =~= Seq::<usize>::empty());
        Seq::<usize>::empty().to_multiset_ensures();
        vstd::multiset::lemma_multiset_empty_len(Seq::<usize>::empty().to_multiset());
        assert(Seq::<usize>::empty().to_multiset() =~= Multiset::empty());
    } else {
        let init = rem.drop_last();
        let last = rem.last();
        lemma_rr_pass_multiset(init);
        assert(rr_rest(rem).drop_last() =~= rr_rest(init));
        let head = if last.len() > 0 { seq![last.last()] } else { Seq::<usize>::empty() };
        let tail = if last.len() > 0 { last.drop_last() } else { last };
        assert(tail + head =~= last);
        assert(rr_rest(rem).last() == tail);
        assert(rr_rest(rem).flatten_alt() == rr_rest(init).flatten_alt() + tail);
        assert(rr_pass(rem) == rr_pass(init) + head);
        assert(rem.flatten_alt() == init.flatten_alt() + last);
        let a = rr_pass(init).to_multiset();
        let b = rr_rest(init).flatten_alt().to_multiset();
        let h = head.to_multiset();
        let t = tail.to_multiset();
        assert(rr_pass(rem).to_multiset() == a.add(h));
        assert(rr_rest(rem).flatten_alt().to_multiset() == b.add(t));
        assert(rem.flatten_alt().to_multiset() == a.add(b).add(t.add(h)));
        assert(a.add(h).add(b.add(t)) =~= a.add(b).add(t.add(h)));
    }
}

proof fn lemma_round_robin_multiset(rem: Seq<Seq<usize>>, total: nat)
    requires
        total == total_len(rem),
    ensures
        round_robin(rem, total).to_multiset() == rem.flatten().to_multiset(),
    decreases total_len(rem),
{
    broadcast use vstd::seq_lib::lemma_multiset_commutative;
    let items = rr_pass(rem);
    lemma_rr_pass_len(rem);
    lemma_rr_pass_multiset(rem);
    rem.lemma_flatten_and_flatten_alt_are_equivalent();
    rr_rest(rem).lemma_flatten_and_flatten_alt_are_equivalent();
    lemma_total_len_is_flatten_len(rr_rest(rem));
    if items.len() >= total || items.len() == 0 {
        assert(total_len(rr_rest(rem)) == 0);
        assert(rr_rest(rem).flatten_alt() =~= Seq::<usize>::empty());
        Seq::<usize>::empty().to_multiset_ensures();
        vstd::multiset::lemma_multiset_empty_len(Seq::<usize>::empty().to_multiset());
        assert(rr_rest(rem).flatten_alt().to_multiset() =~= Multiset::empty());
        assert(items.to_multiset().add(Multiset::empty()) =~= items.to_multiset());
    } else {
        lemma_round_robin_multiset(rr_rest(rem), (total - items.len()) as nat);
    }
}

/// Law: when round robin is asked for everything there is, it allocates every
/// item exactly as often as it is offered.
pub proof fn lemma_round_robin_allocates_all(avail: Seq<Seq<usize>>)
    ensures
        round_robin(avail, total_len(avail)).to_multiset() == avail.flatten().to_multiset(),
{
    lemma_round_robin_multiset(avail, total_len(avail));
}

/// A transaction's weight reduced by `u`, as that many copies of its index.
pub open spec fn reduced(t: Transaction, u: nat) -> Seq<usize> {
    Seq::new(t.weight as nat / u, |_i: int| t.transactions_index)
}

/// The reduced weights of a list of transactions.
pub open spec fn weighted(ts: Seq<Transaction>, u: nat) -> Seq<Seq<usize>> {
    ts.map_values(|t: Transaction| reduced(t, u))
}

/// Build a weighted vector of vectors of unsequenced Transactions.
///
/// Each transaction becomes a list holding its index `weight / u` times; the
/// second result counts the items of all these lists.
pub fn weight_unsequenced_transactions(unsequenced_transactions: &[Transaction], u: usize) -> (r: (
    Vec<Vec<usize>>,
    usize,
))
    requires
        u > 0 || unsequenced_transactions@.len() == 0,
        total_len(weighted(unsequenced_transactions@, u as nat)) <= usize::MAX,
    ensures
        lists_view(r.0@) == weighted(unsequenced_transactions@, u as nat),
        r.1 == total_len(weighted(unsequenced_transactions@, u as nat)),
{
    let ghost ts = unsequenced_transactions@;
    let mut available: Vec<Vec<usize>> = Vec::new();
    let mut total_transactions: usize = 0;
    for i in 0..unsequenced_transactions.len()
        invariant
            ts == unsequenced_transactions@,
            u > 0 || ts.len() == 0,
            total_len(weighted(ts, u as nat)) <= usize::MAX,
            lists_view(available@) == weighted(ts.take(i as int), u as nat),
            total_transactions == total_len(weighted(ts.take(i as int), u as nat)),
    {
        let transaction = &unsequenced_transactions[i];
        let weight = transaction.weight / u;
        let mut weighted_transactions: Vec<usize> = Vec::new();
        for _j in 0..weight
            invariant
                weighted_transactions@ == Seq::new(weighted_transactions@.len(), |_k: int| transaction.transactions_index),
                weighted_transactions@.len() == _j,
        {
            weighted_transactions.push(transaction.transactions_index);
        }
        proof {
            assert(weighted_transactions@ =~= reduced(ts[i as int], u as nat));
            assert(weighted(ts.take(i + 1), u as nat) =~= weighted(ts.take(i as int), u as nat).push(
                reduced(ts[i as int], u as nat),
            ));
            assert(weighted(ts.take(i + 1), u as nat).drop_last() == weighted(ts.take(i as int), u as nat));
            lemma_total_len_prefix_le(weighted(ts, u as nat), i + 1);
            assert(weighted(ts, u as nat).take(i + 1) =~= weighted(ts.take(i + 1), u as nat));
        }
        available.push(weighted_transactions);
        total_transactions = total_transactions + weight;
        proof {
            assert(lists_view(available@) =~= weighted(ts.take(i + 1), u as nat));
        }
    }
    proof {
        assert(ts.take(ts.len() as int) =~= ts);
    }
    (available, total_transactions)
}

proof fn lemma_total_len_prefix_le(rem: Seq<Seq<usize>>, i: int)
    requires
        0 <= i <= rem.len(),
    ensures
        total_len(rem.take(i)) <= total_len(rem),
    decreases rem.len(),
{
    if i < rem.len() {
        assert(rem.drop_last().take(i) =~= rem.take(i));
        lemma_total_len_prefix_le(rem.drop_last(), i);
    } else {
        assert(rem.take(i) =~= rem);
    }
}

proof fn lemma_elem_le_total_len(rem: Seq<Seq<usize>>, i: int)
    requires
        0 <= i < rem.len(),
    ensures
        rem[i].len() <= total_len(rem),
    decreases rem.len(),
{
    if i < rem.len() - 1 {
        lemma_elem_le_total_len(rem.drop_last(), i);
    }
}

/// Build a weighted vector of vectors of sequenced Transactions: the transactions
/// of each sequence value are weighted as `weight_unsequenced_transactions` does.
pub fn weight_sequenced_transactions(
    sequenced_transactions: &BTreeMap<usize, Vec<Transaction>>,
    u: usize,
) -> (available: BTreeMap<usize, Vec<Vec<usize>>>)
    requires
        u > 0 || sequenced_transactions@.dom().is_empty(),
        forall|s: usize| #[trigger]
            sequenced_transactions@.contains_key(s) ==> total_len(
                weighted(sequenced_transactions@[s]@, u as nat),
            ) <= usize::MAX,
    ensures
        available@.dom() == sequenced_transactions@.dom(),
        forall|s: usize| #[trigger]
            available@.contains_key(s) ==> lists_view(available@[s]@) == weighted(
                sequenced_transactions@[s]@,
                u as nat,
            ),
{
    broadcast use vstd::std_specs::btree::group_btree_axioms;

    proof {
        crate::histogram::lemma_usize_keys_ordered();
    }
    let keys = keys_in_order(sequenced_transactions);
    let mut available: BTreeMap<usize, Vec<Vec<usize>>> = BTreeMap::new();
    for i in 0..keys.len()
        invariant
            crate::histogram::keys_sorted(keys@, sequenced_transactions@.dom()),
            crate::histogram::integer_keys_ordered(),
            u > 0 || sequenced_transactions@.dom().is_empty(),
            forall|s: usize| #[trigger]
                sequenced_transactions@.contains_key(s) ==> total_len(
                    weighted(sequenced_transactions@[s]@, u as nat),
                ) <= usize::MAX,
            forall|s: usize| #[trigger]
                available@.contains_key(s) <==> exists|j: int| 0 <= j < i && keys@[j] == s,
            forall|s: usize| #[trigger]
                available@.contains_key(s) ==> sequenced_transactions@.contains_key(s) && lists_view(available@[s]@) == weighted(
                    sequenced_transactions@[s]@,
                    u as nat,
                ),
    {
        let sequence = keys[i];
        assert(sequenced_transactions@.dom().contains(sequence));
        assert(u > 0);
        let transactions = sequenced_transactions.get(&sequence).unwrap();
        let (weighted_transactions, _total) = weight_unsequenced_transactions(transactions.as_slice(), u);
        available.insert(sequence, weighted_transactions);
        proof {
            assert forall|s: usize| (exists|j: int| 0 <= j < i + 1 && keys@[j] == s) implies
                #[trigger] available@.contains_key(s) by {
                if s != sequence {
                    let j = choose|j: int| 0 <= j < i + 1 && keys@[j] == s;
                    assert(j < i);
                }
            }
        }
    }
    proof {
        assert(available@.dom() =~= sequenced_transactions@.dom());
    }
    available
}

/// The items that scheduling takes from `avail`: round robin, or everything in order.
///
/// Random scheduling of weighted lists gives the serial order (see
/// `lemma_random_of_constant_blocks_is_serial`), so two cases suffice.
pub open spec fn plan(avail: Seq<Seq<usize>>, total: nat, scheduler: GooseScheduler) -> Seq<usize> {
    if scheduler == GooseScheduler::RoundRobin {
        round_robin(avail, total)
    } else {
        avail.flatten()
    }
}

/// The sorted sequence values of a map of sequenced lists, each scheduled in turn.
pub open spec fn sequenced_parts(m: Map<usize, Seq<Seq<usize>>>, scheduler: GooseScheduler) -> Seq<
    Seq<usize>,
> {
    let ks = sorted_keys(m.dom());
    Seq::new(
        ks.len(),
        |i: int| plan(m[ks[i]], m[ks[i]][0].len(), scheduler),
    )
}

/// Every item of every inner sequence is below `n`.
pub open spec fn items_below(avail: Seq<Seq<usize>>, n: nat) -> bool {
    forall|i: int, j: int|
        0 <= i < avail.len() && 0 <= j < avail[i].len() ==> #[trigger] avail[i][j] < n
}

proof fn lemma_flatten_below(avail: Seq<Seq<usize>>, n: nat)
    requires
        items_below(avail, n),
    ensures
        forall|k: int| 0 <= k < avail.flatten().len() ==> #[trigger] avail.flatten()[k] < n,
    decreases avail.len(),
{
    if avail.len() > 0 {
        let rest = avail.drop_first();
        assert(items_below(rest, n)) by {
            assert forall|i: int, j: int| 0 <= i < rest.len() && 0 <= j < rest[i].len()
                implies #[trigger] rest[i][j] < n by {
                assert(rest[i] == avail[i + 1]);
            }
        }
        lemma_flatten_below(rest, n);
        assert forall|k: int| 0 <= k < avail.flatten().len() implies #[trigger] avail.flatten()[k] < n by {
            if k < avail[0].len() {
                assert(avail.flatten()[k] == avail[0][k]);
            } else {
                assert(avail.flatten()[k] == rest.flatten()[k - avail[0].len()]);
            }
        }
    }
}

proof fn lemma_rr_below(rem: Seq<Seq<usize>>, total: nat, n: nat)
    requires
        items_below(rem, n),
    ensures
        forall|k: int| 0 <= k < round_robin(rem, total).len() ==> #[trigger] round_robin(rem, total)[k] < n,
    decreases total_len(rem),
{
    lemma_rr_pass_below(rem, n);
    let items = rr_pass(rem);
    if !(items.len() >= total || items.len() == 0) {
        lemma_rr_pass_len(rem);
        let rest = rr_rest(rem);
        assert(items_below(rest, n)) by {
            assert forall|i: int, j: int| 0 <= i < rest.len() && 0 <= j < rest[i].len()
                implies #[trigger] rest[i][j] < n by {
                assert(rest[i][j] == rem[i][j]);
            }
        }
        lemma_rr_below(rest, (total - items.len()) as nat, n);
        let r = round_robin(rem, total);
        assert forall|k: int| 0 <= k < r.len() implies #[trigger] r[k] < n by {
            if k >= items.len() {
                assert(r[k] == round_robin(rest, (total - items.len()) as nat)[k - items.len()]);
            }
        }
    }
}

proof fn lemma_rr_pass_below(rem: Seq<Seq<usize>>, n: nat)
    requires
        items_below(rem, n),
    ensures
        forall|k: int| 0 <= k < rr_pass(rem).len() ==> #[trigger] rr_pass(rem)[k] < n,
    decreases rem.len(),
{
    if rem.len() > 0 {
        let init = rem.drop_last();
        assert(items_below(init, n)) by {
            assert forall|i: int, j: int| 0 <= i < init.len() && 0 <= j < init[i].len()
                implies #[trigger] init[i][j] < n by {
                assert(init[i] == rem[i]);
            }
        }
        lemma_rr_pass_below(init, n);
        let p = rr_pass(rem);
        let pi = rr_pass(init);
        assert forall|k: int| 0 <= k < p.len() implies #[trigger] p[k] < n by {
            if k < pi.len() {
                assert(p[k] == pi[k]);
            } else {
                assert(rem.last().len() > 0);
                assert(p[k] == rem.last().last());
                assert(rem.last().last() == rem[rem.len() - 1][rem.last().len() - 1]);
            }
        }
    }
}

/// Everything a plan takes from lists of items below `n` is below `n`.
pub proof fn lemma_plan_below(avail: Seq<Seq<usize>>, total: nat, scheduler: GooseScheduler, n: nat)
    requires
        items_below(avail, n),
    ensures
        forall|k: int| 0 <= k < plan(avail, total, scheduler).len() ==> #[trigger] plan(avail, total, scheduler)[k] < n,
{
    if scheduler == GooseScheduler::RoundRobin {
        lemma_rr_below(avail, total, n);
    } else {
        lemma_flatten_below(avail, n);
    }
}

/// Weighted lists repeat a single transaction index each.
pub proof fn lemma_weighted_constant(ts: Seq<Transaction>, u: nat)
    requires
        u > 0,
    ensures
        constant_blocks(weighted(ts, u)),
{
    let w = weighted(ts, u);
    assert forall|i: int, j: int, k: int|
        0 <= i < w.len() && 0 <= j < w[i].len() && 0 <= k < w[i].len()
            implies #[trigger] w[i][j] == #[trigger] w[i][k] by {
        assert(w[i] == reduced(ts[i], u));
        let r = reduced(ts[i], u);
        assert(r.len() == ts[i].weight as nat / u);
        assert(r[j] == ts[i].transactions_index);
        assert(w[i][j] == ts[i].transactions_index);
        assert(w[i][k] == ts[i].transactions_index);
    }
}

/// A scheduling outcome of weighted lists is their plan.
pub proof fn lemma_scheduled_is_plan(ts: Seq<Transaction>, u: nat, total: nat, scheduler: GooseScheduler, out: Seq<usize>)
    requires
        u > 0,
        scheduled(weighted(ts, u), total, scheduler, out),
    ensures
        out == plan(weighted(ts, u), total, scheduler),
{
    if scheduler == GooseScheduler::Random {
        lemma_weighted_constant(ts, u);
        lemma_random_of_constant_blocks_is_serial(weighted(ts, u), total, out);
    }
}

/// Schedule the weighted lists of each sequence value, in increasing order of the
/// sequence value, and concatenate the results.
///
/// The lists of each sequence value are scheduled as by
/// `schedule_unsequenced_transactions`, asking for as many items as the first list holds.
pub fn schedule_sequenced_transactions(
    available_sequenced_transactions: &BTreeMap<usize, Vec<Vec<usize>>>,
    scheduler: &GooseScheduler,
) -> (weighted_transactions: Vec<usize>)
    requires
        forall|s: usize| #[trigger]
            available_sequenced_transactions@.contains_key(s)
                ==> available_sequenced_transactions@[s]@.len() > 0,
    ensures
        exists|parts: Seq<Seq<usize>>|
            #![trigger parts.flatten()]
            {
                let m = available_sequenced_transactions@;
                let ks = sorted_keys(m.dom());
                &&& crate::histogram::keys_sorted(ks, m.dom())
                &&& parts.len() == ks.len()
                &&& forall|i: int|
                    0 <= i < ks.len() ==> scheduled(
                        lists_view(m[ks[i]]@),
                        m[ks[i]]@[0]@.len(),
                        *scheduler,
                        #[trigger] parts[i],
                    )
                &&& weighted_transactions@ == parts.flatten()
            },
{
    broadcast use vstd::std_specs::btree::group_btree_axioms;

    proof {
        crate::histogram::lemma_usize_keys_ordered();
    }
    let ghost m = available_sequenced_transactions@;
    let keys = keys_in_order(available_sequenced_transactions);
    let mut out: Vec<usize> = Vec::new();
    let ghost mut parts: Seq<Seq<usize>> = Seq::empty();
    for i in 0..keys.len()
        invariant
            crate::histogram::keys_sorted(keys@, m.dom()),
            keys@ == sorted_keys(m.dom()),
            m == available_sequenced_transactions@,
            crate::histogram::integer_keys_ordered(),
            forall|s: usize| #[trigger] m.contains_key(s) ==> m[s]@.len() > 0,
            parts.len() == i,
            forall|j: int|
                0 <= j < i ==> scheduled(
                    lists_view(m[keys@[j]]@),
                    m[keys@[j]]@[0]@.len(),
                    *scheduler,
                    #[trigger] parts[j],
                ),
            out@ == parts.flatten(),
    {
        let sequence = keys[i];
        assert(m.dom().contains(sequence));
        let transactions = available_sequenced_transactions.get(&sequence).unwrap();
        let first_len = transactions[0].len();
        proof {
            lemma_elem_le_total_len(lists_view(transactions@), 0);
        }
        let mut scheduled_transactions = schedule_unsequenced_transactions(
            transactions.as_slice(),
            first_len,
            scheduler,
        );
        proof {
            parts.lemma_flatten_push(scheduled_transactions@);
            parts = parts.push(scheduled_transactions@);
        }
        out.append(&mut scheduled_transactions);
    }
    out
}

/// Transactions in the order that a user runs them, each with its name.
pub type WeightedTransactions = Vec<(usize, String)>;

/// Which list a transaction belongs to: phase 0 runs on start, phase 2 on stop,
/// phase 1 is the main list of transactions that are neither.
pub open spec fn in_phase(t: Transaction, phase: int) -> bool {
    if phase == 0 {
        t.on_start
    } else if phase == 2 {
        t.on_stop
    } else {
        !t.on_start && !t.on_stop
    }
}

/// The transactions of a phase with sequence value `s`, in the order they were defined.
pub open spec fn group(ts: Seq<Transaction>, phase: int, s: usize) -> Seq<Transaction> {
    ts.filter(|t: Transaction| t.sequence == s && in_phase(t, phase))
}

/// The positive sequence values that occur in a phase.
pub open spec fn sequence_values(ts: Seq<Transaction>, phase: int) -> Set<usize> {
    Set::new(
        |s: usize|
            s > 0 && exists|i: int| 0 <= i < ts.len() && ts[i].sequence == s && in_phase(ts[i], phase),
    )
}

/// The greatest common divisor of all weights, taken in order; zero for no transactions.
pub open spec fn weights_gcd(ts: Seq<Transaction>) -> nat
    decreases ts.len(),
{
    if ts.len() == 0 {
        0
    } else {
        let u = weights_gcd(ts.drop_last());
        if u == 0 {
            ts.last().weight as nat
        } else {
            gcd_of(u, ts.last().weight as nat)
        }
    }
}

/// The weighted lists of each positive sequence value of a phase.
pub open spec fn sequenced_groups(ts: Seq<Transaction>, phase: int, u: nat) -> Map<usize, Seq<Seq<usize>>> {
    Map::new(|s: usize| sequence_values(ts, phase).contains(s), |s: usize| weighted(group(ts, phase, s), u))
}

/// The order of the transaction indices of a phase: the sequenced ones first, by
/// increasing sequence value, then the unsequenced ones.
pub open spec fn phase_order(ts: Seq<Transaction>, phase: int, scheduler: GooseScheduler) -> Seq<usize> {
    let u = weights_gcd(ts);
    let unsequenced = weighted(group(ts, phase, 0), u);
    sequenced_parts(sequenced_groups(ts, phase, u), scheduler).flatten() + plan(
        unsequenced,
        total_len(unsequenced),
        scheduler,
    )
}

/// `out` pairs each index of `order` with the name of that transaction.
pub open spec fn named(out: Seq<(usize, String)>, order: Seq<usize>, ts: Seq<Transaction>) -> bool {
    &&& out.len() == order.len()
    &&& forall|k: int|
        0 <= k < out.len() ==> (#[trigger] out[k]).0 == order[k] && out[k].1@ == ts[order[k] as int].name@
}

/// The sum of all weights.
pub open spec fn weight_sum(ts: Seq<Transaction>) -> nat
    decreases ts.len(),
{
    if ts.len() == 0 {
        0
    } else {
        weight_sum(ts.drop_last()) + ts.last().weight as nat
    }
}

/// What weighting reads of a transaction.
pub open spec fn models(ts: Seq<Transaction>) -> Seq<(usize, usize)> {
    ts.map_values(|t: Transaction| (t.transactions_index, t.weight))
}

proof fn lemma_weighted_by_models(a: Seq<Transaction>, b: Seq<Transaction>, u: nat)
    requires
        models(a) == models(b),
    ensures
        weighted(a, u) == weighted(b, u),
{
    assert(a.len() == models(a).len());
    assert forall|i: int| 0 <= i < a.len() implies weighted(a, u)[i] == weighted(b, u)[i] by {
        assert(models(a)[i] == models(b)[i]);
        assert(reduced(a[i], u) =~= reduced(b[i], u));
    }
    assert(weighted(a, u) =~= weighted(b, u));
}

proof fn lemma_group_step(ts: Seq<Transaction>, i: int, phase: int, s: usize)
    requires
        0 <= i < ts.len(),
    ensures
        group(ts.take(i + 1), phase, s) == (if ts[i].sequence == s && in_phase(ts[i], phase) {
            group(ts.take(i), phase, s).push(ts[i])
        } else {
            group(ts.take(i), phase, s)
        }),
{
    reveal(Seq::filter);
    assert(ts.take(i + 1).drop_last() =~= ts.take(i));
    assert(ts.take(i + 1).last() == ts[i]);
}

proof fn lemma_weighted_filter_bounded(ts: Seq<Transaction>, pred: spec_fn(Transaction) -> bool, u: nat)
    requires
        u > 0,
    ensures
        total_len(weighted(ts.filter(pred), u)) <= weight_sum(ts),
    decreases ts.len(),
{
    reveal(Seq::filter);
    if ts.len() > 0 {
        lemma_weighted_filter_bounded(ts.drop_last(), pred, u);
        let f0 = ts.drop_last().filter(pred);
        if pred(ts.last()) {
            assert(ts.filter(pred) == f0.push(ts.last()));
            assert(weighted(ts.filter(pred), u).drop_last() =~= weighted(f0, u));
            assert(ts.last().weight as nat / u <= ts.last().weight) by (nonlinear_arith)
                requires
                    u > 0,
            ;
        } else {
            assert(ts.filter(pred) == f0);
        }
    }
}

proof fn lemma_weighted_filter_below(ts: Seq<Transaction>, pred: spec_fn(Transaction) -> bool, u: nat, n: nat)
    requires
        u > 0,
        forall|i: int| 0 <= i < ts.len() ==> #[trigger] ts[i].transactions_index < n,
    ensures
        items_below(weighted(ts.filter(pred), u), n),
{
    let f = ts.filter(pred);
    let w = weighted(f, u);
    assert forall|i: int, j: int| 0 <= i < w.len() && 0 <= j < w[i].len() implies #[trigger] w[i][j] < n by {
        ts.lemma_filter_contains_rev(pred, f[i]);
        assert(f.contains(f[i]));
        let k = choose|k: int| 0 <= k < ts.len() && ts[k] == f[i];
        assert(ts[k].transactions_index < n);
        assert(w[i] == reduced(f[i], u));
        assert(w[i][j] == f[i].transactions_index);
    }
}

/// Add a transaction to the list of its sequence value.
fn add_to_group(groups: &mut BTreeMap<usize, Vec<Transaction>>, transaction: &Transaction)
    requires
        crate::histogram::integer_keys_ordered(),
    ensures
        final(groups)@.dom() == old(groups)@.dom().insert(transaction.sequence),
        forall|s: usize| #[trigger]
            old(groups)@.contains_key(s) && s != transaction.sequence ==> final(groups)@[s] == old(groups)@[s],
        models(final(groups)@[transaction.sequence]@) == (if old(groups)@.contains_key(transaction.sequence) {
            models(old(groups)@[transaction.sequence]@)
        } else {
            Seq::empty()
        }).push((transaction.transactions_index, transaction.weight)),
{
    broadcast use vstd::std_specs::btree::group_btree_axioms;

    let sequence = transaction.sequence;
    match groups.remove(&sequence) {
        Some(mut sequence_transactions) => {
            let ghost before = sequence_transactions@;
            sequence_transactions.push(transaction.clone());
            proof {
                assert(models(sequence_transactions@) =~= models(before).push(
                    (transaction.transactions_index, transaction.weight),
                ));
            }
            groups.insert(sequence, sequence_transactions);
        },
        None => {
            let mut sequence_transactions: Vec<Transaction> = Vec::new();
            sequence_transactions.push(transaction.clone());
            proof {
                assert(models(sequence_transactions@) =~= Seq::<(usize, usize)>::empty().push(
                    (transaction.transactions_index, transaction.weight),
                ));
            }
            groups.insert(sequence, sequence_transactions);
        },
    }
    proof {
        assert(final(groups)@.dom() =~= old(groups)@.dom().insert(transaction.sequence));
    }
}

/// The transactions of one phase, grouped: sequenced ones by sequence value, in
/// a map, and unsequenced ones in a list.
pub struct PhaseGroups {
    /// Transactions with a positive sequence value, by that value.
    pub sequenced: BTreeMap<usize, Vec<Transaction>>,
    /// Transactions without a sequence value.
    pub unsequenced: Vec<Transaction>,
}

/// `g` groups the transactions of `ts` that belong to `phase`.
pub open spec fn groups_of(g: PhaseGroups, ts: Seq<Transaction>, phase: int) -> bool {
    &&& g.sequenced@.dom() == sequence_values(ts, phase)
    &&& forall|s: usize| #[trigger]
        g.sequenced@.contains_key(s) ==> models(g.sequenced@[s]@) == models(group(ts, phase, s))
    &&& models(g.unsequenced@) == models(group(ts, phase, 0))
}

impl PhaseGroups {
    fn new() -> (g: Self)
        ensures
            forall|phase: int| groups_of(g, Seq::empty(), phase),
    {
        let g = PhaseGroups { sequenced: BTreeMap::new(), unsequenced: Vec::new() };
        proof {
            assert forall|phase: int| groups_of(g, Seq::empty(), phase) by {
                reveal(Seq::filter);
                assert(g.sequenced@.dom() =~= sequence_values(Seq::empty(), phase));
                assert(models(g.unsequenced@) =~= models(group(Seq::empty(), phase, 0)));
            }
        }
        g
    }

    /// Record one more transaction, which belongs to the phase of these groups.
    fn add(&mut self, ts: Ghost<Seq<Transaction>>, phase: Ghost<int>, transaction: &Transaction)
        requires
            crate::histogram::integer_keys_ordered(),
            groups_of(*old(self), ts@, phase@),
            in_phase(*transaction, phase@),
        ensures
            groups_of(*final(self), ts@.push(*transaction), phase@),
    {
        let ghost ts1 = ts@.push(*transaction);
        proof {
            assert forall|s: usize| true implies group(ts1, phase@, s) == (if transaction.sequence == s {
                group(ts@, phase@, s).push(*transaction)
            } else {
                group(ts@, phase@, s)
            }) by {
                lemma_group_step(ts1, ts@.len() as int, phase@, s);
                assert(ts1.take(ts@.len() as int) =~= ts@);
                assert(ts1.take(ts@.len() as int + 1) =~= ts1);
            }
        }
        if transaction.sequence > 0 {
            let ghost old_map = self.sequenced@;
            add_to_group(&mut self.sequenced, transaction);
            proof {
                assert(self.sequenced@.dom() =~= sequence_values(ts1, phase@)) by {
                    assert forall|s: usize| sequence_values(ts1, phase@).contains(s) implies
                        #[trigger] self.sequenced@.dom().contains(s) by {
                        if s != transaction.sequence {
                            let i = choose|i: int| 0 <= i < ts1.len() && ts1[i].sequence == s && in_phase(ts1[i], phase@);
                            assert(i < ts@.len());
                            assert(ts@[i] == ts1[i]);
                            assert(sequence_values(ts@, phase@).contains(s));
                        }
                    }
                    assert forall|s: usize| #[trigger] self.sequenced@.dom().contains(s) implies
                        sequence_values(ts1, phase@).contains(s) by {
                        if s != transaction.sequence {
                            assert(sequence_values(ts@, phase@).contains(s));
                            let i = choose|i: int| 0 <= i < ts@.len() && ts@[i].sequence == s && in_phase(ts@[i], phase@);
                            assert(ts1[i] == ts@[i]);
                        } else {
                            assert(ts1[ts@.len() as int] == *transaction);
                        }
                    }
                }
                assert forall|s: usize| #[trigger] self.sequenced@.contains_key(s) implies models(self.sequenced@[s]@)
                    == models(group(ts1, phase@, s)) by {
                    if s == transaction.sequence {
                        if old_map.contains_key(s) {
                            assert(models(group(ts1, phase@, s)) =~= models(group(ts@, phase@, s)).push(
                                (transaction.transactions_index, transaction.weight),
                            ));
                        } else {
                            assert(!sequence_values(ts@, phase@).contains(s));
                            assert(group(ts@, phase@, s).len() == 0) by {
                                if group(ts@, phase@, s).len() > 0 {
                                    let f = group(ts@, phase@, s);
                                    ts@.lemma_filter_pred(|t: Transaction| t.sequence == s && in_phase(t, phase@), 0);
                                    ts@.lemma_filter_contains_rev(|t: Transaction| t.sequence == s && in_phase(t, phase@), f[0]);
                                    assert(f.contains(f[0]));
                                    let i = choose|i: int| 0 <= i < ts@.len() && ts@[i] == f[0];
                                    assert(sequence_values(ts@, phase@).contains(s));
                                }
                            }
                            assert(models(group(ts1, phase@, s)) =~= Seq::<(usize, usize)>::empty().push(
                                (transaction.transactions_index, transaction.weight),
                            ));
                        }
                    }
                }
                assert(models(self.unsequenced@) == models(group(ts1, phase@, 0)));
            }
        } else {
            let ghost before = self.unsequenced@;
            self.unsequenced.push(transaction.clone());
            proof {
                assert(models(self.unsequenced@) =~= models(before).push(
                    (transaction.transactions_index, transaction.weight),
                ));
                assert(models(group(ts1, phase@, 0)) =~= models(group(ts@, phase@, 0)).push(
                    (transaction.transactions_index, transaction.weight),
                ));
                assert(self.sequenced@.dom() =~= sequence_values(ts1, phase@)) by {
                    assert forall|s: usize| sequence_values(ts1, phase@).contains(s) implies
                        #[trigger] self.sequenced@.dom().contains(s) by {
                        let i = choose|i: int| 0 <= i < ts1.len() && ts1[i].sequence == s && in_phase(ts1[i], phase@);
                        assert(i < ts@.len());
                        assert(ts@[i] == ts1[i]);
                        assert(sequence_values(ts@, phase@).contains(s));
                    }
                    assert forall|s: usize| #[trigger] self.sequenced@.dom().contains(s) implies
                        sequence_values(ts1, phase@).contains(s) by {
                        let i = choose|i: int| 0 <= i < ts@.len() && ts@[i].sequence == s && in_phase(ts@[i], phase@);
                        assert(ts1[i] == ts@[i]);
                    }
                }
            }
        }
    }

    /// Record a transaction that does not belong to the phase of these groups.
    proof fn skip(g: PhaseGroups, ts: Seq<Transaction>, phase: int, transaction: Transaction)
        requires
            groups_of(g, ts, phase),
            !in_phase(transaction, phase),
        ensures
            groups_of(g, ts.push(transaction), phase),
    {
        let ts1 = ts.push(transaction);
        assert(ts1.take(ts.len() as int) =~= ts);
        assert forall|s: usize| true implies group(ts1, phase, s) == group(ts, phase, s) by {
            lemma_group_step(ts1, ts.len() as int, phase, s);
            assert(ts1.take(ts.len() as int + 1) =~= ts1);
        }
        assert(sequence_values(ts1, phase) =~= sequence_values(ts, phase)) by {
            assert forall|s: usize| sequence_values(ts1, phase).contains(s) implies
                sequence_values(ts, phase).contains(s) by {
                let i = choose|i: int| 0 <= i < ts1.len() && ts1[i].sequence == s && in_phase(ts1[i], phase);
                assert(i < ts.len());
                assert(ts[i] == ts1[i]);
            }
            assert forall|s: usize| sequence_values(ts, phase).contains(s) implies
                sequence_values(ts1, phase).contains(s) by {
                let i = choose|i: int| 0 <= i < ts.len() && ts[i].sequence == s && in_phase(ts[i], phase);
                assert(ts1[i] == ts[i]);
            }
        }
    }
}

proof fn lemma_scheduled_nothing(total: nat, scheduler: GooseScheduler, out: Seq<usize>)
    requires
        scheduled(Seq::empty(), total, scheduler, out),
    ensures
        out == plan(Seq::empty(), total, scheduler),
{
    if scheduler == GooseScheduler::Random {
        let blocks = choose|blocks: Seq<Seq<usize>>|
            #![trigger blocks.flatten()]
            {
                &&& blocks.len() == Seq::<Seq<usize>>::empty().len()
                &&& forall|i: int|
                    0 <= i < Seq::<Seq<usize>>::empty().len() ==> #[trigger] blocks[i].to_multiset()
                        == Seq::<Seq<usize>>::empty()[i].to_multiset()
                &&& out == blocks.flatten()
            };
        assert(blocks =~= Seq::<Seq<usize>>::empty());
    }
}

/// Weight and schedule the transactions of one phase.
fn phase_transactions(
    ts: &Vec<Transaction>,
    groups: &PhaseGroups,
    u: usize,
    phase: Ghost<int>,
    scheduler: &GooseScheduler,
) -> (order: Vec<usize>)
    requires
        crate::histogram::integer_keys_ordered(),
        groups_of(*groups, ts@, phase@),
        u == weights_gcd(ts@),
        u > 0 || ts@.len() == 0,
        weight_sum(ts@) <= usize::MAX,
        forall|i: int| 0 <= i < ts@.len() ==> #[trigger] ts@[i].transactions_index < ts@.len(),
    ensures
        order@ == phase_order(ts@, phase@, *scheduler),
        forall|k: int| 0 <= k < order@.len() ==> #[trigger] order@[k] < ts@.len(),
{
    let ghost un = u as nat;
    let ghost n = ts@.len();
    proof {
        if ts@.len() == 0 {
            assert(groups.sequenced@.dom() =~= Set::empty());
            reveal(Seq::filter);
            assert(group(ts@, phase@, 0) =~= Seq::empty());
            assert(groups.unsequenced@.len() == models(groups.unsequenced@).len());
        }
        assert forall|s: usize| #[trigger] groups.sequenced@.contains_key(s) implies total_len(
            weighted(groups.sequenced@[s]@, un),
        ) <= usize::MAX by {
            lemma_weighted_by_models(groups.sequenced@[s]@, group(ts@, phase@, s), un);
            lemma_weighted_filter_bounded(ts@, |t: Transaction| t.sequence == s && in_phase(t, phase@), un);
        }
        if u > 0 {
            lemma_weighted_by_models(groups.unsequenced@, group(ts@, phase@, 0), un);
            lemma_weighted_filter_bounded(ts@, |t: Transaction| t.sequence == 0 && in_phase(t, phase@), un);
        } else {
            assert(groups.unsequenced@.len() == models(groups.unsequenced@).len());
            assert(groups.unsequenced@.len() == 0);
            assert(weighted(groups.unsequenced@, un) =~= Seq::empty());
        }
    }
    let available_sequenced = weight_sequenced_transactions(&groups.sequenced, u);
    let (available_unsequenced, total) = weight_unsequenced_transactions(groups.unsequenced.as_slice(), u);
    proof {
        assert forall|s: usize| #[trigger] available_sequenced@.contains_key(s) implies
            available_sequenced@[s]@.len() > 0 by {
            assert(sequence_values(ts@, phase@).contains(s));
            let i = choose|i: int| 0 <= i < ts@.len() && ts@[i].sequence == s && in_phase(ts@[i], phase@);
            ts@.lemma_filter_contains(|t: Transaction| t.sequence == s && in_phase(t, phase@), i);
            assert(group(ts@, phase@, s).len() > 0);
            assert(models(groups.sequenced@[s]@).len() == models(group(ts@, phase@, s)).len());
            assert(lists_view(available_sequenced@[s]@).len() == groups.sequenced@[s]@.len());
        }
    }
    let mut order = schedule_sequenced_transactions(&available_sequenced, scheduler);
    let mut unsequenced_order = schedule_unsequenced_transactions(
        available_unsequenced.as_slice(),
        total,
        scheduler,
    );
    proof {
        let m = available_sequenced@;
        let gm = sequenced_groups(ts@, phase@, un);
        let ks = sorted_keys(m.dom());
        assert(gm.dom() =~= m.dom());
        let parts = choose|parts: Seq<Seq<usize>>|
            #![trigger parts.flatten()]
            {
                &&& crate::histogram::keys_sorted(ks, m.dom())
                &&& parts.len() == ks.len()
                &&& forall|i: int|
                    0 <= i < ks.len() ==> scheduled(
                        lists_view(m[ks[i]]@),
                        m[ks[i]]@[0]@.len(),
                        *scheduler,
                        #[trigger] parts[i],
                    )
                &&& order@ == parts.flatten()
            };
        let sp = sequenced_parts(gm, *scheduler);
        assert forall|i: int| 0 <= i < ks.len() implies parts[i] == sp[i] by {
            let k = ks[i];
            assert(sorted_keys(m.dom()) == ks);
            assert(m.contains_key(k));
            lemma_weighted_by_models(groups.sequenced@[k]@, group(ts@, phase@, k), un);
            assert(lists_view(m[k]@) == gm[k]);
            assert(scheduled(lists_view(m[k]@), m[k]@[0]@.len(), *scheduler, parts[i]));
            assert(u > 0);
            lemma_scheduled_is_plan(group(ts@, phase@, k), un, m[k]@[0]@.len(), *scheduler, parts[i]);
            assert(m[k]@[0]@.len() == gm[k][0].len());
        }
        assert(parts =~= sp);
        let unsequenced = weighted(group(ts@, phase@, 0), un);
        if u > 0 {
            lemma_weighted_by_models(groups.unsequenced@, group(ts@, phase@, 0), un);
            lemma_scheduled_is_plan(group(ts@, phase@, 0), un, total as nat, *scheduler, unsequenced_order@);
        } else {
            reveal(Seq::filter);
            assert(group(ts@, phase@, 0) =~= Seq::empty());
            assert(unsequenced =~= Seq::empty());
            assert(lists_view(available_unsequenced@) =~= Seq::empty());
            lemma_scheduled_nothing(total as nat, *scheduler, unsequenced_order@);
        }
        // every index is a transaction's own
        assert forall|i: int| 0 <= i < sp.len() implies items_below(seq![sp[i]], n) by {
            let k = ks[i];
            assert(m.contains_key(k));
            lemma_weighted_filter_below(ts@, |t: Transaction| t.sequence == k && in_phase(t, phase@), un, n);
            lemma_plan_below(gm[k], gm[k][0].len(), *scheduler, n);
        }
        assert(items_below(sp, n)) by {
            assert forall|i: int, j: int| 0 <= i < sp.len() && 0 <= j < sp[i].len() implies #[trigger] sp[i][j] < n by {
                assert(items_below(seq![sp[i]], n));
                assert(seq![sp[i]][0] == sp[i]);
            }
        }
        lemma_flatten_below(sp, n);
        if u > 0 {
            lemma_weighted_filter_below(ts@, |t: Transaction| t.sequence == 0 && in_phase(t, phase@), un, n);
            lemma_plan_below(unsequenced, total_len(unsequenced), *scheduler, n);
        }
    }
    order.append(&mut unsequenced_order);
    order
}

/// Pair each transaction index with the name of that transaction.
fn name_transactions(ts: &Vec<Transaction>, order: &Vec<usize>) -> (named_order: WeightedTransactions)
    requires
        forall|k: int| 0 <= k < order@.len() ==> #[trigger] order@[k] < ts@.len(),
    ensures
        named(named_order@, order@, ts@),
{
    let mut named_order: WeightedTransactions = Vec::new();
    for k in 0..order.len()
        invariant
            forall|k: int| 0 <= k < order@.len() ==> #[trigger] order@[k] < ts@.len(),
            named(named_order@, order@.take(k as int), ts@),
    {
        let transaction = order[k];
        assert(order@[k as int] < ts@.len());
        named_order.push((transaction, ts[transaction].name.clone()));
        assert(order@.take(k + 1)[k as int] == transaction);
    }
    assert(order@.take(order@.len() as int) =~= order@);
    named_order
}

/// Use the configured GooseScheduler to allocate all Transactions within the
/// Scenario in the appropriate order. Returns three ordered lists:
/// `on_start_transactions`, run once when a user starts; `transactions`, run for
/// the duration of the load test; and `on_stop_transactions`, run once when a user
/// stops.
///
/// Transactions with a sequence value come first, by increasing sequence value;
/// unsequenced transactions follow. Weights are reduced by their greatest common
/// divisor.
pub fn allocate_transactions(
    scenario: &Scenario,
    scheduler: &GooseScheduler,
) -> (allocated: (WeightedTransactions, WeightedTransactions, WeightedTransactions))
    requires
        forall|i: int| 0 <= i < scenario.transactions@.len() ==> #[trigger] scenario.transactions@[i].weight > 0,
        forall|i: int|
            0 <= i < scenario.transactions@.len() ==> #[trigger] scenario.transactions@[i].transactions_index
                < scenario.transactions@.len(),
        weight_sum(scenario.transactions@) <= usize::MAX,
    ensures
        named(allocated.0@, phase_order(scenario.transactions@, 0, *scheduler), scenario.transactions@),
        named(allocated.1@, phase_order(scenario.transactions@, 1, *scheduler), scenario.transactions@),
        named(allocated.2@, phase_order(scenario.transactions@, 2, *scheduler), scenario.transactions@),
{
    proof {
        crate::histogram::lemma_usize_keys_ordered();
    }
    let ts = &scenario.transactions;
    let mut on_start_groups = PhaseGroups::new();
    let mut groups = PhaseGroups::new();
    let mut on_stop_groups = PhaseGroups::new();
    let mut u: usize = 0;
    proof {
        assert(ts@.take(0) =~= Seq::<Transaction>::empty());
    }
    for i in 0..ts.len()
        invariant
            crate::histogram::integer_keys_ordered(),
            forall|j: int| 0 <= j < ts@.len() ==> #[trigger] ts@[j].weight > 0,
            groups_of(on_start_groups, ts@.take(i as int), 0),
            groups_of(groups, ts@.take(i as int), 1),
            groups_of(on_stop_groups, ts@.take(i as int), 2),
            u == weights_gcd(ts@.take(i as int)),
            u > 0 <==> i > 0,
    {
        let transaction = &ts[i];
        let ghost prefix = ts@.take(i as int);
        proof {
            assert(ts@.take(i + 1) =~= prefix.push(*transaction));
        }
        if transaction.on_start {
            on_start_groups.add(Ghost(prefix), Ghost(0), transaction);
        } else {
            proof { PhaseGroups::skip(on_start_groups, prefix, 0, *transaction); }
        }
        if transaction.on_stop {
            on_stop_groups.add(Ghost(prefix), Ghost(2), transaction);
        } else {
            proof { PhaseGroups::skip(on_stop_groups, prefix, 2, *transaction); }
        }
        if !transaction.on_start && !transaction.on_stop {
            groups.add(Ghost(prefix), Ghost(1), transaction);
        } else {
            proof { PhaseGroups::skip(groups, prefix, 1, *transaction); }
        }
        proof {
            assert(ts@.take(i + 1).drop_last() =~= prefix);
        }
        if u == 0 {
            u = transaction.weight;
        } else {
            u = gcd(u, transaction.weight);
        }
    }
    proof {
        assert(ts@.take(ts@.len() as int) =~= ts@);
    }
    let on_start_order = phase_transactions(ts, &on_start_groups, u, Ghost(0), scheduler);
    let order = phase_transactions(ts, &groups, u, Ghost(1), scheduler);
    let on_stop_order = phase_transactions(ts, &on_stop_groups, u, Ghost(2), scheduler);
    (
        name_transactions(ts, &on_start_order),
        name_transactions(ts, &order),
        name_transactions(ts, &on_stop_order),
    )
}

} // verus!
