//! Histograms of times: a `BTreeMap` from a time to the number of times it was seen,
//! and the sorted walk over the keys of such maps.

use std::collections::BTreeMap;
use vstd::prelude::*;
use vstd::std_specs::cmp::OrdSpec;
use vstd::std_specs::iter::IteratorSpec;

verus! {

broadcast use vstd::std_specs::btree::group_btree_axioms;

/// `ks` lists every element of `d` exactly once, in strictly increasing order.
pub open spec fn keys_sorted(ks: Seq<usize>, d: Set<usize>) -> bool {
    &&& forall|i: int, j: int| 0 <= i < j < ks.len() ==> ks[i] < ks[j]
    &&& forall|i: int| 0 <= i < ks.len() ==> #[trigger] d.contains(ks[i])
    &&& forall|k: usize| #[trigger] d.contains(k) ==> exists|i: int| 0 <= i < ks.len() && ks[i] == k
}

/// The elements of a finite set of integers in increasing order.
pub open spec fn sorted_keys(d: Set<usize>) -> Seq<usize> {
    choose|ks: Seq<usize>| keys_sorted(ks, d)
}

/// A set has at most one sorted listing.
#[verifier::spinoff_prover]
pub proof fn lemma_sorted_listing_unique(s1: Seq<usize>, s2: Seq<usize>, d: Set<usize>)
    requires
        keys_sorted(s1, d),
        keys_sorted(s2, d),
    ensures
        s1 == s2,
    decreases s1.len() + s2.len(),
{
    if s1.len() == 0 {
        if s2.len() > 0 {
            assert(d.contains(s2[0]));
        }
        assert(s1 =~= s2);
    } else if s2.len() == 0 {
        assert(d.contains(s1[0]));
    } else {
        assert(d.contains(s1[0]));
        assert(d.contains(s2[0]));
        let i = choose|i: int| 0 <= i < s1.len() && s1[i] == s2[0];
        let j = choose|j: int| 0 <= j < s2.len() && s2[j] == s1[0];
        assert(s1[0] == s2[0]) by {
            if i > 0 {
                assert(s1[0] < s1[i]);
            }
            if j > 0 {
                assert(s2[0] < s2[j]);
            }
        }
        let d2 = d.remove(s1[0]);
        let t1 = s1.drop_first();
        let t2 = s2.drop_first();
        assert forall|k: usize| #[trigger] d2.contains(k) implies exists|i: int|
            0 <= i < t1.len() && t1[i] == k by {
            let i = choose|i: int| 0 <= i < s1.len() && s1[i] == k;
            assert(i > 0);
            assert(t1[i - 1] == k);
        }
        assert forall|k: usize| #[trigger] d2.contains(k) implies exists|i: int|
            0 <= i < t2.len() && t2[i] == k by {
            let i = choose|i: int| 0 <= i < s2.len() && s2[i] == k;
            assert(i > 0);
            assert(t2[i - 1] == k);
        }
        assert forall|i: int| 0 <= i < t1.len() implies #[trigger] d2.contains(t1[i]) by {
            assert(s1[0] < s1[i + 1]);
        }
        assert forall|i: int| 0 <= i < t2.len() implies #[trigger] d2.contains(t2[i]) by {
            assert(s2[0] < s2[i + 1]);
        }
        lemma_sorted_listing_unique(t1, t2, d2);
        assert forall|k: int| 0 <= k < s1.len() implies s1[k] == s2[k] by {
            if k > 0 {
                assert(s1[k] == t1[k - 1]);
                assert(s2[k] == t2[k - 1]);
            }
        }
        assert(s1 =~= s2);
    }
}

/// Once one sorted listing is known, it is the sorted listing.
pub proof fn lemma_sorted_keys_is(ks: Seq<usize>, d: Set<usize>)
    requires
        keys_sorted(ks, d),
    ensures
        sorted_keys(d) == ks,
{
    lemma_sorted_listing_unique(sorted_keys(d), ks, d);
}

/// The keys of a map, in increasing order.
pub fn keys_in_order<V>(m: &BTreeMap<usize, V>) -> (ks: Vec<usize>)
    ensures
        ks@ == sorted_keys(m@.dom()),
        keys_sorted(ks@, m@.dom()),
{
    broadcast use vstd::laws_cmp::group_laws_cmp;

    let iter = m.iter();
    let ghost kvs = iter.remaining();
    proof {
        let keys = kvs.map_values(|kv: (&usize, &V)| *kv.0);
        assert(vstd::std_specs::btree::increasing_seq(keys));
        assert forall|i: int, j: int| 0 <= i < j < kvs.len() implies *kvs[i].0 < *kvs[j].0 by {
            assert(keys[i] == *kvs[i].0);
            assert(keys[j] == *kvs[j].0);
            assert(keys[i].cmp_spec(&keys[j]) is Less);
        }
    }
    let mut ks: Vec<usize> = Vec::new();
    for kv in it: iter
        invariant
            it.seq() == kvs,
            ks@.len() == it.index(),
            forall|i: int| 0 <= i < ks@.len() ==> ks@[i] == *kvs[i].0,
    {
        ks.push(*kv.0);
    }
    proof {
        assert forall|k: usize| #[trigger] m@.dom().contains(k) implies exists|i: int|
            0 <= i < ks@.len() && ks@[i] == k by {
            assert(kvs.contains((&k, &m@[k])));
            let i = choose|i: int| 0 <= i < kvs.len() && kvs[i] == (&k, &m@[k]);
            assert(ks@[i] == k);
        }
        assert forall|i: int| 0 <= i < ks@.len() implies #[trigger] m@.dom().contains(ks@[i]) by {
            assert(m@.contains_key(*kvs[i].0));
        }
        lemma_sorted_keys_is(ks@, m@.dom());
    }
    ks
}

/// The keys returned by `keys_in_order` list the map's keys.
pub proof fn lemma_sorted_keys_exist_for(d: Set<usize>, ks: Seq<usize>)
    requires
        ks == sorted_keys(d),
        exists|s: Seq<usize>| keys_sorted(s, d),
    ensures
        keys_sorted(ks, d),
{
}

/// Integer keys follow the order model that the map's contract asks for.
pub open spec fn integer_keys_ordered() -> bool {
    vstd::laws_cmp::obeys_cmp::<usize>() && vstd::laws_cmp::obeys_cmp::<u16>()
}

/// Integer keys are ordered as the map's contract asks.
pub proof fn lemma_usize_keys_ordered()
    ensures
        integer_keys_ordered(),
{
    broadcast use vstd::laws_cmp::group_laws_cmp;
}

/// How often `k` was seen according to `m`: zero when it is not a key.
pub open spec fn count_of(m: Map<usize, usize>, k: usize) -> nat {
    if m.contains_key(k) {
        m[k] as nat
    } else {
        0
    }
}

/// The sum of two histograms: every time seen in either, with the counts added.
pub open spec fn merged(global: Map<usize, usize>, local: Map<usize, usize>) -> Map<usize, usize> {
    Map::new(
        |k: usize| global.contains_key(k) || local.contains_key(k),
        |k: usize| (count_of(global, k) + count_of(local, k)) as usize,
    )
}

/// The counts of two histograms can be added without overflow.
pub open spec fn mergeable(global: Map<usize, usize>, local: Map<usize, usize>) -> bool {
    forall|k: usize| #[trigger] local.contains_key(k) ==> count_of(global, k) + local[k] <= usize::MAX
}

/// Merge `local` times into `global` times: the counts of times seen in both are added.
pub fn merge_times(global: BTreeMap<usize, usize>, local: BTreeMap<usize, usize>) -> (merged_times: BTreeMap<
    usize,
    usize,
>)
    requires
        mergeable(global@, local@),
    ensures
        merged_times@ == merged(global@, local@),
{
    proof {
        lemma_usize_keys_ordered();
    }
    let mut global = global;
    let ghost g0 = global@;
    let keys = keys_in_order(&local);
    for i in 0..keys.len()
        invariant
            integer_keys_ordered(),
            keys_sorted(keys@, local@.dom()),
            mergeable(g0, local@),
            forall|k: usize| #[trigger] global@.contains_key(k) <==> (g0.contains_key(k) || exists|j: int| 0 <= j < i && keys@[j] == k),
            forall|k: usize| #[trigger] global@.contains_key(k) ==> global@[k] == (if exists|j: int| 0 <= j < i && keys@[j] == k {
                count_of(g0, k) + count_of(local@, k)
            } else {
                count_of(g0, k)
            }),
    {
        let response_time = keys[i];
        assert(local@.contains_key(response_time));
        let count = *local.get(&response_time).unwrap();
        assert(!exists|j: int| 0 <= j < i && keys@[j] == response_time) by {
            if exists|j: int| 0 <= j < i && keys@[j] == response_time {
                let j = choose|j: int| 0 <= j < i && keys@[j] == response_time;
                assert(keys@[j] < keys@[i as int]);
            }
        }
        let counter = match global.get(&response_time) {
            Some(c) => *c + count,
            None => count,
        };
        global.insert(response_time, counter);
        proof {
            assert forall|k: usize| (g0.contains_key(k) || exists|j: int| 0 <= j < i + 1 && keys@[j] == k)
                implies #[trigger] global@.contains_key(k) by {
                if k != response_time && !g0.contains_key(k) {
                    let j = choose|j: int| 0 <= j < i + 1 && keys@[j] == k;
                    assert(j < i);
                }
            }
            assert forall|k: usize| #[trigger] global@.contains_key(k) implies global@[k] == (if exists|j: int| 0 <= j < i + 1 && keys@[j] == k {
                count_of(g0, k) + count_of(local@, k)
            } else {
                count_of(g0, k)
            }) by {
                if k != response_time {
                    if exists|j: int| 0 <= j < i + 1 && keys@[j] == k {
                        let j = choose|j: int| 0 <= j < i + 1 && keys@[j] == k;
                        assert(j < i);
                    }
                } else {
                    assert(keys@[i as int] == k);
                }
            }
        }
    }
    proof {
        assert forall|k: usize| #[trigger] local@.contains_key(k) implies exists|j: int| 0 <= j < keys@.len() && keys@[j] == k by {
        }
        assert(global@ =~= merged(g0, local@));
    }
    global
}

/// Law: merging an empty histogram changes nothing.
pub proof fn lemma_merge_empty(global: Map<usize, usize>)
    ensures
        mergeable(global, Map::empty()),
        merged(global, Map::empty()) == global,
{
    assert(merged(global, Map::empty()) =~= global);
}

/// Law: merging adds the counts of each time, so the order of the two does not matter.
pub proof fn lemma_merge_commutative(a: Map<usize, usize>, b: Map<usize, usize>)
    requires
        mergeable(a, b),
    ensures
        mergeable(b, a),
        merged(a, b) == merged(b, a),
{
    assert(merged(a, b) =~= merged(b, a));
}

/// Under a merge that fits, the count of each time is the sum of its counts.
proof fn lemma_count_of_merged(a: Map<usize, usize>, b: Map<usize, usize>, k: usize)
    requires
        mergeable(a, b),
    ensures
        count_of(merged(a, b), k) == count_of(a, k) + count_of(b, k),
{
}

/// Law: merging is associative: merging three histograms gives the same counts
/// whichever two are merged first.
pub proof fn lemma_merge_associative(a: Map<usize, usize>, b: Map<usize, usize>, c: Map<usize, usize>)
    requires
        mergeable(a, b),
        mergeable(merged(a, b), c),
    ensures
        mergeable(b, c),
        mergeable(a, merged(b, c)),
        merged(merged(a, b), c) == merged(a, merged(b, c)),
{
    assert forall|k: usize| #[trigger] c.contains_key(k) implies count_of(b, k) + c[k] <= usize::MAX by {
        lemma_count_of_merged(a, b, k);
    }
    assert forall|k: usize| #[trigger] merged(b, c).contains_key(k) implies count_of(a, k) + merged(b, c)[k]
        <= usize::MAX by {
        lemma_count_of_merged(a, b, k);
        lemma_count_of_merged(b, c, k);
    }
    assert forall|k: usize| #[trigger] merged(merged(a, b), c).contains_key(k) implies merged(merged(a, b), c)[k]
        == merged(a, merged(b, c))[k] by {
        lemma_count_of_merged(a, b, k);
        lemma_count_of_merged(b, c, k);
    }
    assert(merged(merged(a, b), c) =~= merged(a, merged(b, c)));
}

/// Law: the counts of a merge add up to the counts of its parts, over any list of
/// times, so over all times seen the merge counts as many requests as both parts.
pub proof fn lemma_merge_adds_counts(a: Map<usize, usize>, b: Map<usize, usize>, ks: Seq<usize>)
    requires
        mergeable(a, b),
    ensures
        count_sum(merged(a, b), ks) == count_sum(a, ks) + count_sum(b, ks),
    decreases ks.len(),
{
    if ks.len() > 0 {
        lemma_count_of_merged(a, b, ks[0]);
        lemma_merge_adds_counts(a, b, ks.drop_first());
    }
}

/// Walking the keys `ks` in order and adding their counts to `acc`: the first key at
/// which the running total reaches `target`.
pub open spec fn first_reaching(m: Map<usize, usize>, ks: Seq<usize>, target: nat, acc: nat) -> Option<usize>
    decreases ks.len(),
{
    if ks.len() == 0 {
        None
    } else if acc + count_of(m, ks[0]) >= target {
        Some(ks[0])
    } else {
        first_reaching(m, ks.drop_first(), target, acc + count_of(m, ks[0]))
    }
}

/// The running totals of that walk fit in a `usize` up to the key that reaches `target`.
pub open spec fn running_totals_fit(m: Map<usize, usize>, ks: Seq<usize>, target: nat, acc: nat) -> bool
    decreases ks.len(),
{
    if ks.len() == 0 {
        true
    } else {
        &&& acc + count_of(m, ks[0]) <= usize::MAX
        &&& (acc + count_of(m, ks[0]) >= target || running_totals_fit(
            m,
            ks.drop_first(),
            target,
            acc + count_of(m, ks[0]),
        ))
    }
}

/// The sum of the counts of the keys `ks`.
pub open spec fn count_sum(m: Map<usize, usize>, ks: Seq<usize>) -> nat
    decreases ks.len(),
{
    if ks.len() == 0 {
        0
    } else {
        count_of(m, ks[0]) + count_sum(m, ks.drop_first())
    }
}

/// Law: when all the counts of a histogram add up within a `usize`, walking it to any
/// rank fits, so every percentile and median of it can be computed.
pub proof fn lemma_running_totals_fit(m: Map<usize, usize>, ks: Seq<usize>, target: nat, acc: nat)
    requires
        acc + count_sum(m, ks) <= usize::MAX,
    ensures
        running_totals_fit(m, ks, target, acc),
    decreases ks.len(),
{
    if ks.len() > 0 {
        lemma_running_totals_fit(m, ks.drop_first(), target, acc + count_of(m, ks[0]));
    }
}

/// A walk whose running totals fit up to a target also fits up to a smaller one.
pub proof fn lemma_running_totals_fit_below(m: Map<usize, usize>, ks: Seq<usize>, small: nat, large: nat, acc: nat)
    requires
        running_totals_fit(m, ks, large, acc),
        small <= large,
    ensures
        running_totals_fit(m, ks, small, acc),
    decreases ks.len(),
{
    if ks.len() > 0 && acc + count_of(m, ks[0]) < small {
        lemma_running_totals_fit_below(m, ks.drop_first(), small, large, acc + count_of(m, ks[0]));
    }
}

/// What the walk finds is one of the keys walked.
proof fn lemma_first_reaching_in(m: Map<usize, usize>, ks: Seq<usize>, target: nat, acc: nat)
    ensures
        first_reaching(m, ks, target, acc) matches Some(k) ==> exists|i: int| 0 <= i < ks.len() && ks[i] == k,
    decreases ks.len(),
{
    if ks.len() > 0 && acc + count_of(m, ks[0]) < target {
        lemma_first_reaching_in(m, ks.drop_first(), target, acc + count_of(m, ks[0]));
        if let Some(k) = first_reaching(m, ks, target, acc) {
            let i = choose|i: int| 0 <= i < ks.drop_first().len() && ks.drop_first()[i] == k;
            assert(ks[i + 1] == k);
        }
    }
}

/// A walk whose counts add up to at least the target reaches it.
proof fn lemma_first_reaching_found(m: Map<usize, usize>, ks: Seq<usize>, target: nat, acc: nat)
    requires
        target <= acc + count_sum(m, ks),
        count_sum(m, ks) > 0,
    ensures
        first_reaching(m, ks, target, acc) is Some,
    decreases ks.len(),
{
    if ks.len() > 0 && acc + count_of(m, ks[0]) < target {
        lemma_first_reaching_found(m, ks.drop_first(), target, acc + count_of(m, ks[0]));
    }
}

/// Walking keys in increasing order, a smaller target is reached no later.
proof fn lemma_first_reaching_monotone(m: Map<usize, usize>, ks: Seq<usize>, small: nat, large: nat, acc: nat)
    requires
        forall|i: int, j: int| 0 <= i < j < ks.len() ==> ks[i] < ks[j],
        small <= large,
        first_reaching(m, ks, large, acc) is Some,
    ensures
        first_reaching(m, ks, small, acc) is Some,
        first_reaching(m, ks, small, acc).unwrap() <= first_reaching(m, ks, large, acc).unwrap(),
    decreases ks.len(),
{
    let rest = ks.drop_first();
    let next = acc + count_of(m, ks[0]);
    if next >= large {
    } else if next >= small {
        lemma_first_reaching_in(m, rest, large, next);
        let k = first_reaching(m, rest, large, next).unwrap();
        let i = choose|i: int| 0 <= i < rest.len() && rest[i] == k;
        assert(ks[0] < ks[i + 1]);
    } else {
        lemma_first_reaching_monotone(m, rest, small, large, next);
    }
}

/// Law: a larger share of the requests never finishes sooner. Among the requests
/// a histogram counts, the time within which `small` of them finished is at most
/// the time within which `large` of them did, for `1 <= small <= large`, when the
/// bounds are ordered.
pub proof fn lemma_time_at_rank_monotone(m: Map<usize, usize>, small: nat, large: nat, min: usize, max: usize)
    requires
        exists|ks: Seq<usize>| keys_sorted(ks, m.dom()),
        1 <= small <= large <= count_sum(m, sorted_keys(m.dom())),
        min <= max,
    ensures
        time_at_rank(m, small, min, max) <= time_at_rank(m, large, min, max),
{
    let ks = sorted_keys(m.dom());
    lemma_sorted_keys_exist_for(m.dom(), ks);
    lemma_first_reaching_found(m, ks, large, 0);
    lemma_first_reaching_monotone(m, ks, small, large, 0);
}

/// `total` times `per_myriad` ten-thousandths, rounded to the nearest whole
/// number, halves upward.
pub open spec fn percentile_rank(total: nat, per_myriad: nat) -> nat {
    (total * per_myriad + 5000) / 10000
}

/// The rank of a percentile among `total` requests: `total` times `per_myriad`
/// ten-thousandths, rounded to the nearest whole number, halves upward.
pub fn rank_of(total: usize, per_myriad: u32) -> (r: usize)
    requires
        per_myriad <= 10000,
    ensures
        r == percentile_rank(total as nat, per_myriad as nat),
        r <= total,
{
    proof {
        assert(total * per_myriad <= total * 10000) by (nonlinear_arith)
            requires
                per_myriad <= 10000,
        ;
    }
    let scaled: u128 = total as u128 * per_myriad as u128 + 5000;
    let r: u128 = scaled / 10000;
    proof {
        assert(r <= total) by (nonlinear_arith)
            requires
                r == scaled / 10000,
                scaled <= total * 10000 + 5000,
        ;
    }
    r as usize
}

/// Half of `total`, rounded half up.
pub open spec fn half_of(total: nat) -> nat {
    total / 2 + total % 2
}

/// The median of a histogram: the first time (in increasing order) at which half
/// of `total_elements` is reached, kept within `min` and `max`; zero if never reached.
pub open spec fn median_of(m: Map<usize, usize>, total_elements: nat, min: usize, max: usize) -> usize {
    match first_reaching(m, sorted_keys(m.dom()), half_of(total_elements), 0) {
        Some(value) => if value > max {
            max
        } else if value < min {
            min
        } else {
            value
        },
        None => 0,
    }
}

/// The time that `rank` of the counted requests finished within: the first time (in
/// increasing order) at which `rank` requests are reached, kept within `min` and
/// `max`; zero if never reached.
pub open spec fn time_at_rank(m: Map<usize, usize>, rank: nat, min: usize, max: usize) -> usize {
    match first_reaching(m, sorted_keys(m.dom()), rank, 0) {
        Some(value) => if value < min {
            min
        } else if value > max {
            max
        } else {
            value
        },
        None => 0,
    }
}

/// Walk a histogram in increasing order of time, and return the first time at
/// which the running count reaches `target`.
pub(crate) fn find_reaching(btree: &BTreeMap<usize, usize>, target: usize) -> (found: Option<usize>)
    requires
        running_totals_fit(btree@, sorted_keys(btree@.dom()), target as nat, 0),
    ensures
        found == first_reaching(btree@, sorted_keys(btree@.dom()), target as nat, 0),
{
    proof {
        lemma_usize_keys_ordered();
    }
    let keys = keys_in_order(btree);
    let ghost ks = keys@;
    let mut total_count: usize = 0;
    let mut i: usize = 0;
    proof {
        assert(ks.skip(0) =~= ks);
    }
    while i < keys.len()
        invariant
            integer_keys_ordered(),
            keys_sorted(ks, btree@.dom()),
            ks == keys@,
            ks == sorted_keys(btree@.dom()),
            i <= ks.len(),
            first_reaching(btree@, ks, target as nat, 0) == first_reaching(btree@, ks.skip(i as int), target as nat, total_count as nat),
            running_totals_fit(btree@, ks.skip(i as int), target as nat, total_count as nat),
        decreases ks.len() - i,
    {
        let value = keys[i];
        assert(btree@.contains_key(value));
        let counter = *btree.get(&value).unwrap();
        assert(ks.skip(i as int)[0] == value);
        total_count = total_count + counter;
        if total_count >= target {
            return Some(value);
        }
        assert(ks.skip(i as int).drop_first() =~= ks.skip(i + 1));
        i = i + 1;
    }
    None
}

/// Get the time within which `rank` of the counted requests finished.
///
/// The time is kept within `min` and `max`; zero is returned when the histogram
/// never reaches `rank`.
pub fn time_at_percentile_rank(
    response_times: &BTreeMap<usize, usize>,
    rank: usize,
    min: usize,
    max: usize,
) -> (t: usize)
    requires
        running_totals_fit(response_times@, sorted_keys(response_times@.dom()), rank as nat, 0),
    ensures
        t == time_at_rank(response_times@, rank as nat, min, max),
{
    match find_reaching(response_times, rank) {
        Some(value) => {
            if value < min {
                min
            } else if value > max {
                max
            } else {
                value
            }
        },
        None => 0,
    }
}

/// Law: the median is the time within which half of the requests, rounded up,
/// finished, kept within the same bounds, when the bounds are ordered.
pub proof fn lemma_median_is_half_rank(m: Map<usize, usize>, total: nat, min: usize, max: usize)
    requires
        min <= max,
    ensures
        median_of(m, total, min, max) == time_at_rank(m, half_of(total), min, max),
{
}

/// Law: the 50th percentile rank is half of the requests, rounded up, so the median
/// is the 50th percentile.
pub proof fn lemma_fiftieth_percentile_is_half(total: nat)
    ensures
        percentile_rank(total, 5000) == half_of(total),
{
    assert((total * 5000 + 5000) / 10000 == total / 2 + total % 2) by (nonlinear_arith);
}

/// Law: a rank never exceeds the number of requests it is taken of.
pub proof fn lemma_percentile_rank_bounded(total: nat, per_myriad: nat)
    requires
        per_myriad <= 10000,
    ensures
        percentile_rank(total, per_myriad) <= total,
{
    assert((total * per_myriad + 5000) / 10000 <= total) by (nonlinear_arith)
        requires
            per_myriad <= 10000,
    ;
}


/// Law: in a row of percentiles of a histogram that counts `total` requests, from
/// the median on, a larger share never gives a shorter time, and every time lies
/// between the fastest and the slowest.
pub proof fn lemma_percentiles_ordered(
    m: Map<usize, usize>,
    total: nat,
    min: usize,
    max: usize,
    p: nat,
    q: nat,
)
    requires
        exists|ks: Seq<usize>| keys_sorted(ks, m.dom()),
        total == count_sum(m, sorted_keys(m.dom())),
        total > 0,
        min <= max,
        5000 <= p <= q <= 10000,
    ensures
        time_at_rank(m, percentile_rank(total, p), min, max) <= time_at_rank(m, percentile_rank(total, q), min, max),
        min <= time_at_rank(m, percentile_rank(total, p), min, max) <= max,
{
    let ks = sorted_keys(m.dom());
    lemma_sorted_keys_exist_for(m.dom(), ks);
    let rp = percentile_rank(total, p);
    let rq = percentile_rank(total, q);
    assert(1 <= (total * p + 5000) / 10000) by (nonlinear_arith)
        requires
            total > 0,
            p >= 5000,
    ;
    assert((total * p + 5000) / 10000 <= (total * q + 5000) / 10000) by (nonlinear_arith)
        requires
            p <= q,
    ;
    assert((total * q + 5000) / 10000 <= total) by (nonlinear_arith)
        requires
            total > 0,
            q <= 10000,
    ;
    lemma_time_at_rank_monotone(m, rp, rq, min, max);
    lemma_first_reaching_found(m, ks, rp, 0);
}


/// The number of requests a histogram counts: the counts of all its times added.
pub open spec fn histogram_total(m: Map<usize, usize>) -> nat {
    count_sum(m, sorted_keys(m.dom()))
}

/// The keys among `ks` that `m` holds, in the order of `ks`.
pub open spec fn held_keys(m: Map<usize, usize>, ks: Seq<usize>) -> Seq<usize>
    decreases ks.len(),
{
    if ks.len() == 0 {
        Seq::empty()
    } else if m.contains_key(ks[0]) {
        seq![ks[0]] + held_keys(m, ks.drop_first())
    } else {
        held_keys(m, ks.drop_first())
    }
}

proof fn lemma_count_sum_held(m: Map<usize, usize>, ks: Seq<usize>)
    ensures
        count_sum(m, ks) == count_sum(m, held_keys(m, ks)),
    decreases ks.len(),
{
    if ks.len() > 0 {
        lemma_count_sum_held(m, ks.drop_first());
        if m.contains_key(ks[0]) {
            let h = seq![ks[0]] + held_keys(m, ks.drop_first());
            assert(h[0] == ks[0]);
            assert(h.drop_first() =~= held_keys(m, ks.drop_first()));
        }
    }
}

proof fn lemma_held_keys_sorted(m: Map<usize, usize>, ks: Seq<usize>)
    requires
        forall|i: int, j: int| 0 <= i < j < ks.len() ==> ks[i] < ks[j],
    ensures
        forall|i: int| 0 <= i < held_keys(m, ks).len() ==> m.contains_key(#[trigger] held_keys(m, ks)[i])
            && exists|j: int| 0 <= j < ks.len() && ks[j] == held_keys(m, ks)[i],
        forall|i: int, j: int| 0 <= i < j < held_keys(m, ks).len() ==> held_keys(m, ks)[i] < held_keys(m, ks)[j],
        forall|k: usize| #[trigger] m.contains_key(k) && (exists|j: int| 0 <= j < ks.len() && ks[j] == k) ==> exists|i: int|
            0 <= i < held_keys(m, ks).len() && held_keys(m, ks)[i] == k,
    decreases ks.len(),
{
    if ks.len() > 0 {
        let rest = ks.drop_first();
        lemma_held_keys_sorted(m, rest);
        let hr = held_keys(m, rest);
        let h = held_keys(m, ks);
        assert forall|i: int| 0 <= i < hr.len() implies ks[0] < #[trigger] hr[i] by {
            let j = choose|j: int| 0 <= j < rest.len() && rest[j] == hr[i];
            assert(ks[j + 1] == rest[j]);
        }
        if m.contains_key(ks[0]) {
            assert forall|i: int| 0 <= i < h.len() implies m.contains_key(#[trigger] h[i]) && exists|j: int|
                0 <= j < ks.len() && ks[j] == h[i] by {
                if i == 0 {
                    assert(ks[0] == h[0]);
                } else {
                    assert(h[i] == hr[i - 1]);
                    let j = choose|j: int| 0 <= j < rest.len() && rest[j] == hr[i - 1];
                    assert(ks[j + 1] == h[i]);
                }
            }
            assert forall|i: int, j: int| 0 <= i < j < h.len() implies h[i] < h[j] by {
                assert(h[j] == hr[j - 1]);
                if i > 0 {
                    assert(h[i] == hr[i - 1]);
                }
            }
            assert forall|k: usize| #[trigger] m.contains_key(k) && (exists|j: int| 0 <= j < ks.len() && ks[j] == k)
                implies exists|i: int| 0 <= i < h.len() && h[i] == k by {
                let j = choose|j: int| 0 <= j < ks.len() && ks[j] == k;
                if j == 0 {
                    assert(h[0] == k);
                } else {
                    assert(rest[j - 1] == k);
                    let i = choose|i: int| 0 <= i < hr.len() && hr[i] == k;
                    assert(h[i + 1] == k);
                }
            }
        } else {
            assert forall|i: int| 0 <= i < h.len() implies m.contains_key(#[trigger] h[i]) && exists|j: int|
                0 <= j < ks.len() && ks[j] == h[i] by {
                let j = choose|j: int| 0 <= j < rest.len() && rest[j] == hr[i];
                assert(ks[j + 1] == h[i]);
            }
            assert forall|k: usize| #[trigger] m.contains_key(k) && (exists|j: int| 0 <= j < ks.len() && ks[j] == k)
                implies exists|i: int| 0 <= i < h.len() && h[i] == k by {
                let j = choose|j: int| 0 <= j < ks.len() && ks[j] == k;
                assert(j != 0);
                assert(rest[j - 1] == k);
            }
        }
    }
}

/// Counting a histogram over the sorted listing of a set of times that holds all
/// of its times counts all its requests.
proof fn lemma_count_over_superset(m: Map<usize, usize>, d: Set<usize>)
    requires
        exists|ks: Seq<usize>| keys_sorted(ks, m.dom()),
        exists|ks: Seq<usize>| keys_sorted(ks, d),
        forall|k: usize| #[trigger] m.contains_key(k) ==> d.contains(k),
    ensures
        count_sum(m, sorted_keys(d)) == histogram_total(m),
{
    let u = sorted_keys(d);
    lemma_sorted_keys_exist_for(d, u);
    lemma_count_sum_held(m, u);
    lemma_held_keys_sorted(m, u);
    let h = held_keys(m, u);
    assert forall|k: usize| #[trigger] m.dom().contains(k) implies exists|i: int| 0 <= i < h.len() && h[i] == k by {
        assert(m.contains_key(k));
        assert(d.contains(k));
        assert(exists|j: int| 0 <= j < u.len() && u[j] == k);
    }
    assert forall|i: int| 0 <= i < h.len() implies #[trigger] m.dom().contains(h[i]) by {
        assert(m.contains_key(h[i]));
    }
    assert(keys_sorted(h, m.dom()));
    lemma_sorted_keys_is(h, m.dom());
}

/// Law: merging two histograms counts as many requests as both of them together.
pub proof fn lemma_merge_total(a: Map<usize, usize>, b: Map<usize, usize>)
    requires
        mergeable(a, b),
        exists|ks: Seq<usize>| keys_sorted(ks, a.dom()),
        exists|ks: Seq<usize>| keys_sorted(ks, b.dom()),
        exists|ks: Seq<usize>| keys_sorted(ks, merged(a, b).dom()),
    ensures
        histogram_total(merged(a, b)) == histogram_total(a) + histogram_total(b),
{
    let d = merged(a, b).dom();
    lemma_merge_adds_counts(a, b, sorted_keys(d));
    lemma_count_over_superset(a, d);
    lemma_count_over_superset(b, d);
}

} // verus!
