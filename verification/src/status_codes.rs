//! Counts of response status codes: merging them, and listing them as text.

use std::collections::HashMap;
use vstd::prelude::*;
use vstd::std_specs::iter::IteratorSpec;

use crate::metrics::code_count;
use crate::text::{decimal, format_number, grouped_decimal, unsigned_text};

verus! {

broadcast use vstd::std_specs::hash::group_hash_axioms;

/// The counts of two maps of status codes added together.
pub open spec fn merged_codes(global: Map<u16, usize>, local: Map<u16, usize>) -> Map<u16, usize> {
    Map::new(
        |k: u16| global.contains_key(k) || local.contains_key(k),
        |k: u16| (code_count(global, k) + code_count(local, k)) as usize,
    )
}

/// The counts of two maps of status codes can be added without overflow.
pub open spec fn codes_mergeable(global: Map<u16, usize>, local: Map<u16, usize>) -> bool {
    forall|k: u16| #[trigger] local.contains_key(k) ==> code_count(global, k) + local[k] <= usize::MAX
}

/// Add the status code counts of `local` into `global`.
pub fn merge_status_codes(global: &mut HashMap<u16, usize>, local: &HashMap<u16, usize>)
    requires
        codes_mergeable(old(global)@, local@),
    ensures
        final(global)@ == merged_codes(old(global)@, local@),
{
    broadcast use vstd::std_specs::hash::axiom_spec_hash_map_iter;
    broadcast use vstd::std_specs::hash::axiom_u16_obeys_hash_table_key_model;

    let ghost g0 = global@;
    let ghost kvs = local.iter().remaining();
    for kv in it: local.iter()
        invariant
            it.seq() == kvs,
            kvs.no_duplicates(),
            kvs.len() == local@.dom().len(),
            forall|i: int| 0 <= i < kvs.len() ==> local@.contains_key(*kvs[i].0) && local@[*kvs[i].0] == *kvs[i].1,
            forall|k: u16| #[trigger] local@.contains_key(k) ==> kvs.contains((&k, &local@[k])),
            codes_mergeable(g0, local@),
            forall|k: u16| #[trigger] global@.contains_key(k) <==> (g0.contains_key(k) || exists|j: int| 0 <= j < it.index() && *kvs[j].0 == k),
            forall|k: u16| #[trigger] global@.contains_key(k) ==> global@[k] == (if exists|j: int| 0 <= j < it.index() && *kvs[j].0 == k {
                code_count(g0, k) + code_count(local@, k)
            } else {
                code_count(g0, k)
            }),
    {
        let (code, count) = kv;
        let ghost i = it.index();
        assert(!exists|j: int| 0 <= j < i && *kvs[j].0 == *code) by {
            if exists|j: int| 0 <= j < i && *kvs[j].0 == *code {
                let j = choose|j: int| 0 <= j < i && *kvs[j].0 == *code;
                assert(local@[*kvs[j].0] == *kvs[j].1);
                assert(kvs[j] == kvs[i]);
            }
        }
        let new_count = match global.get(code) {
            Some(c) => *c + *count,
            None => *count,
        };
        global.insert(*code, new_count);
        proof {
            assert forall|k: u16| (g0.contains_key(k) || exists|j: int| 0 <= j < i + 1 && *kvs[j].0 == k)
                implies #[trigger] global@.contains_key(k) by {
                if k != *code && !g0.contains_key(k) {
                    let j = choose|j: int| 0 <= j < i + 1 && *kvs[j].0 == k;
                    assert(j < i);
                }
            }
            assert forall|k: u16| #[trigger] global@.contains_key(k) implies global@[k] == (if exists|j: int| 0 <= j < i + 1 && *kvs[j].0 == k {
                code_count(g0, k) + code_count(local@, k)
            } else {
                code_count(g0, k)
            }) by {
                if k != *code {
                    if exists|j: int| 0 <= j < i + 1 && *kvs[j].0 == k {
                        let j = choose|j: int| 0 <= j < i + 1 && *kvs[j].0 == k;
                        assert(j < i);
                    }
                } else {
                    assert(*kvs[i].0 == k);
                }
            }
        }
    }
    proof {
        assert forall|k: u16| #[trigger] local@.contains_key(k) implies exists|j: int| 0 <= j < kvs.len() && *kvs[j].0 == k by {
            assert(kvs.contains((&k, &local@[k])));
        }
        assert(global@ =~= merged_codes(g0, local@));
    }
}

/// The text of one status code and its count, as `count [code]` with the count
/// grouped by thousands.
pub open spec fn code_entry(code: u16, count: usize) -> Seq<char> {
    grouped_decimal(count as nat) + " ["@ + decimal(code as nat) + "]"@
}

/// The entries of a list of status codes and counts, separated by `, `.
pub open spec fn codes_text(kvs: Seq<(u16, usize)>) -> Seq<char>
    decreases kvs.len(),
{
    if kvs.len() == 0 {
        Seq::empty()
    } else if kvs.len() == 1 {
        code_entry(kvs[0].0, kvs[0].1)
    } else {
        codes_text(kvs.drop_last()) + ", "@ + code_entry(kvs.last().0, kvs.last().1)
    }
}

/// `kvs` lists each status code of `m` exactly once, with its count.
pub open spec fn lists_codes(kvs: Seq<(u16, usize)>, m: Map<u16, usize>) -> bool {
    &&& forall|i: int, j: int| 0 <= i < j < kvs.len() ==> kvs[i].0 != kvs[j].0
    &&& forall|i: int| 0 <= i < kvs.len() ==> #[trigger] m.contains_key(kvs[i].0) && m[kvs[i].0] == kvs[i].1
    &&& forall|k: u16| #[trigger] m.contains_key(k) ==> exists|i: int| 0 <= i < kvs.len() && kvs[i].0 == k
}

/// Helper to list the seen status codes with their counts, as `count [code]`
/// separated by commas; the codes come in the order in which the map gives them,
/// which is not fixed.
pub fn prepare_status_codes(status_code_counts: &HashMap<u16, usize>) -> (codes: String)
    ensures
        exists|kvs: Seq<(u16, usize)>| lists_codes(kvs, status_code_counts@) && codes@ == codes_text(kvs),
{
    broadcast use vstd::std_specs::hash::axiom_spec_hash_map_iter;
    broadcast use vstd::std_specs::hash::axiom_u16_obeys_hash_table_key_model;

    let ghost m = status_code_counts@;
    let ghost kvs = status_code_counts.iter().remaining();
    let ghost listed = kvs.map_values(|kv: (&u16, &usize)| (*kv.0, *kv.1));
    let mut codes = String::new();
    for kv in it: status_code_counts.iter()
        invariant
            it.seq() == kvs,
            listed == kvs.map_values(|kv: (&u16, &usize)| (*kv.0, *kv.1)),
            codes@ == codes_text(listed.take(it.index() as int)),
    {
        let (status_code, count) = kv;
        let ghost i = it.index();
        let ghost before = codes@;
        let entry_count = format_number(*count);
        let entry_code = unsigned_text(*status_code as u128);
        if codes.unicode_len() > 0 {
            codes.append(", ");
        }
        codes.append(entry_count.as_str());
        codes.append(" [");
        codes.append(entry_code.as_str());
        codes.append("]");
        proof {
            let prefix = listed.take(i + 1);
            assert(prefix.drop_last() =~= listed.take(i as int));
            assert(prefix.last() == (*status_code, *count));
            if i > 0 {
                lemma_codes_text_nonempty(listed.take(i as int));
            } else {
                assert(listed.take(i as int).len() == 0);
                assert(before.len() == 0);
            }
        }
    }
    proof {
        assert(listed.take(kvs.len() as int) =~= listed);
        assert forall|k: u16| #[trigger] m.contains_key(k) implies exists|i: int| 0 <= i < listed.len() && listed[i].0 == k by {
            assert(kvs.contains((&k, &m[k])));
            let i = choose|i: int| 0 <= i < kvs.len() && kvs[i] == (&k, &m[k]);
            assert(listed[i].0 == k);
        }
        assert forall|i: int, j: int| 0 <= i < j < listed.len() implies listed[i].0 != listed[j].0 by {
            if listed[i].0 == listed[j].0 {
                assert(m[*kvs[i].0] == *kvs[i].1);
                assert(m[*kvs[j].0] == *kvs[j].1);
                assert(kvs[i] == kvs[j]);
            }
        }
        assert(forall|i: int| 0 <= i < listed.len() ==> #[trigger] m.contains_key(listed[i].0) && m[listed[i].0] == listed[i].1);
        assert(lists_codes(listed, m));
    }
    codes
}

/// The text of a non-empty list is not empty.
proof fn lemma_codes_text_nonempty(kvs: Seq<(u16, usize)>)
    requires
        kvs.len() > 0,
    ensures
        codes_text(kvs).len() > 0,
    decreases kvs.len(),
{
    reveal_strlit("]");
    if kvs.len() > 1 {
        lemma_codes_text_nonempty(kvs.drop_last());
    }
}

/// Law: adding up status codes does not depend on which counts come first.
pub proof fn lemma_merged_codes_commutative(a: Map<u16, usize>, b: Map<u16, usize>)
    ensures
        merged_codes(a, b) == merged_codes(b, a),
{
    assert(merged_codes(a, b) =~= merged_codes(b, a));
}

} // verus!
