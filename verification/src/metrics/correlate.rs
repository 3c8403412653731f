//! Correlating current metrics with the metrics of a baseline run.

use vstd::prelude::*;
use vstd::std_specs::cmp::PartialEqSpec;

use crate::metrics::delta::DeltaTo;

verus! {

/// The baseline entry that current entry `i` takes its deltas from, given the keys
/// of the current entries `ck` and of the baseline entries `bk`: none when a later
/// current entry has the same key (the later one takes the deltas), else the last
/// baseline entry with that key, if there is one.
pub open spec fn correlated<K: PartialEq>(ck: Seq<K>, bk: Seq<K>, i: int) -> Option<int> {
    if exists|j: int| i < j < ck.len() && (#[trigger] ck[j]).eq_spec(&ck[i]) {
        None
    } else if exists|j: int| 0 <= j < bk.len() && (#[trigger] bk[j]).eq_spec(&ck[i]) {
        Some(
            choose|j: int|
                0 <= j < bk.len() && (#[trigger] bk[j]).eq_spec(&ck[i]) && forall|m: int|
                    j < m < bk.len() ==> !(#[trigger] bk[m]).eq_spec(&ck[i]),
        )
    } else {
        None
    }
}

/// The keys `f` gives for the entries of `entries`, one each.
pub open spec fn keys_of<T, K, F: Fn(&T) -> K>(f: F, entries: Seq<T>, keys: Seq<K>) -> bool {
    keys.len() == entries.len() && forall|i: int| 0 <= i < entries.len() ==> f.ensures((&entries[i],), #[trigger] keys[i])
}

fn keys_by<T, K, F: Fn(&T) -> K>(entries: &[T], f: &F) -> (keys: Vec<K>)
    requires
        forall|t: &T| f.requires((t,)),
    ensures
        keys_of(*f, entries@, keys@),
{
    let mut keys: Vec<K> = Vec::new();
    for i in 0..entries.len()
        invariant
            forall|t: &T| f.requires((t,)),
            keys@.len() == i,
            forall|j: int| 0 <= j < i ==> f.ensures((&entries@[j],), #[trigger] keys@[j]),
    {
        let k = f(&entries[i]);
        keys.push(k);
    }
    keys
}

/// Take a current list of metrics, and apply correlated baseline metrics: each
/// current entry takes its deltas from the last baseline entry with the same key,
/// where the key is what `f` returns for an entry. Of current entries with the
/// same key, only the last one takes deltas.
pub fn correlate_deltas<T: DeltaTo, K: PartialEq, F: Fn(&T) -> K>(current: &mut Vec<T>, baseline: &[T], f: F)
    requires
        K::obeys_eq_spec(),
        forall|t: &T| f.requires((t,)),
    ensures
        final(current)@.len() == old(current)@.len(),
        exists|ck: Seq<K>, bk: Seq<K>|
            {
                &&& keys_of(f, old(current)@, ck)
                &&& keys_of(f, baseline@, bk)
                &&& forall|i: int|
                    0 <= i < ck.len() ==> #[trigger] final(current)@[i] == match correlated(ck, bk, i) {
                        Some(j) => old(current)@[i].delta_applied(baseline@[j]),
                        None => old(current)@[i],
                    }
            },
{
    let ghost old_current = current@;
    let ck = keys_by(current.as_slice(), &f);
    let bk = keys_by(baseline, &f);
    let n = current.len();
    for i in 0..n
        invariant
            n == current@.len(),
            n == old_current.len(),
            K::obeys_eq_spec(),
            keys_of(f, old_current, ck@),
            keys_of(f, baseline@, bk@),
            forall|m: int| 0 <= m < i ==> #[trigger] current@[m] == match correlated(ck@, bk@, m) {
                Some(j) => old_current[m].delta_applied(baseline@[j]),
                None => old_current[m],
            },
            forall|m: int| i <= m < n ==> #[trigger] current@[m] == old_current[m],
    {
        // A later entry with the same key takes the deltas instead.
        let mut later = false;
        let mut j = i + 1;
        while j < n
            invariant
                i < n,
                n == ck@.len(),
                K::obeys_eq_spec(),
                i + 1 <= j <= n,
                later <==> exists|m: int| i < m < j && (#[trigger] ck@[m]).eq_spec(&ck@[i as int]),
            decreases n - j,
        {
            if ck[j] == ck[i] {
                later = true;
            }
            j = j + 1;
        }
        if !later {
            // The last baseline entry with the same key.
            let mut found: Option<usize> = None;
            let mut b = bk.len();
            while b > 0 && found.is_none()
                invariant
                    b <= bk@.len(),
                    i < ck@.len(),
                    K::obeys_eq_spec(),
                    found is None ==> forall|m: int| b <= m < bk@.len() ==> !(#[trigger] bk@[m]).eq_spec(&ck@[i as int]),
                    found matches Some(x) ==> x < bk@.len() && bk@[x as int].eq_spec(&ck@[i as int]) && forall|m: int|
                        x < m < bk@.len() ==> !(#[trigger] bk@[m]).eq_spec(&ck@[i as int]),
                decreases b + (if found is None { 1int } else { 0int }),
            {
                b = b - 1;
                if bk[b] == ck[i] {
                    found = Some(b);
                }
            }
            match found {
                Some(x) => {
                    proof {
                        let c = correlated(ck@, bk@, i as int);
                        assert(c == Some(x as int)) by {
                            assert(0 <= x < bk@.len() && bk@[x as int].eq_spec(&ck@[i as int]));
                            let y = choose|y: int|
                                0 <= y < bk@.len() && (#[trigger] bk@[y]).eq_spec(&ck@[i as int]) && forall|m: int|
                                    y < m < bk@.len() ==> !(#[trigger] bk@[m]).eq_spec(&ck@[i as int]);
                            if y < x {
                                assert(!bk@[x as int].eq_spec(&ck@[i as int]));
                            } else if y > x {
                                assert(!bk@[y].eq_spec(&ck@[i as int]));
                            }
                        }
                    }
                    current[i].delta_to(&baseline[x]);
                },
                None => {},
            }
        }
    }
}

} // verus!
