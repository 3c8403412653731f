//! Lists of named values kept in the order of their names, so that each name
//! occurs once: the requests of the statistics, keyed by request name.

use vstd::prelude::*;

use crate::text::{compare_text, lemma_text_less_transitive, lemma_text_less_trichotomy, text_less, TextOrder};
use crate::util::chars_of;

verus! {

/// The names come in strictly increasing order, so each occurs once.
pub open spec fn names_ordered<V>(rs: Seq<(String, V)>) -> bool {
    forall|i: int, j: int| 0 <= i < j < rs.len() ==> text_less(#[trigger] rs[i].0@, #[trigger] rs[j].0@)
}

/// The value kept under `name`, if any.
pub open spec fn value_named<V>(rs: Seq<(String, V)>, name: Seq<char>) -> Option<V>
    decreases rs.len(),
{
    if rs.len() == 0 {
        None
    } else if rs.last().0@ == name {
        Some(rs.last().1)
    } else {
        value_named(rs.drop_last(), name)
    }
}

/// In an ordered list each entry is what its name finds.
pub proof fn lemma_named_at<V>(rs: Seq<(String, V)>, i: int)
    requires
        names_ordered(rs),
        0 <= i < rs.len(),
    ensures
        value_named(rs, rs[i].0@) == Some(rs[i].1),
    decreases rs.len(),
{
    if i < rs.len() - 1 {
        assert(text_less(rs[i].0@, rs[rs.len() - 1].0@));
        lemma_text_less_trichotomy(rs[i].0@, rs[i].0@, 0);
        let shorter = rs.drop_last();
        assert forall|a: int, b: int| 0 <= a < b < shorter.len() implies text_less(#[trigger] shorter[a].0@, #[trigger] shorter[b].0@) by {
            assert(shorter[a] == rs[a] && shorter[b] == rs[b]);
        }
        lemma_named_at(shorter, i);
        assert(shorter[i] == rs[i]);
    }
}

/// A name that no entry has finds nothing.
pub proof fn lemma_named_none<V>(rs: Seq<(String, V)>, name: Seq<char>)
    requires
        forall|i: int| 0 <= i < rs.len() ==> #[trigger] rs[i].0@ != name,
    ensures
        value_named(rs, name) == None::<V>,
    decreases rs.len(),
{
    if rs.len() > 0 {
        assert(rs.last().0@ != name);
        let shorter = rs.drop_last();
        assert forall|i: int| 0 <= i < shorter.len() implies #[trigger] shorter[i].0@ != name by {
            assert(shorter[i] == rs[i]);
        }
        lemma_named_none(shorter, name);
    }
}

/// Keep `value` under `name`, in place of what was kept under that name before;
/// what other names find stays as it was, and the names stay in order.
pub fn insert_named<V>(entries: &mut Vec<(String, V)>, name: String, value: V)
    requires
        names_ordered(old(entries)@),
    ensures
        names_ordered(final(entries)@),
        forall|k: Seq<char>| #[trigger] value_named(final(entries)@, k) == if k == name@ {
            Some(value)
        } else {
            value_named(old(entries)@, k)
        },
{
    let ghost rs0 = entries@;
    let key = chars_of(name.as_str());
    let mut p: usize = 0;
    let mut order = TextOrder::Greater;
    while p < entries.len()
        invariant_except_break
            p <= entries.len(),
            entries@ == rs0,
            key@ == name@,
            forall|j: int| 0 <= j < p ==> text_less(#[trigger] rs0[j].0@, name@),
        ensures
            p <= entries.len(),
            entries@ == rs0,
            forall|j: int| 0 <= j < p ==> text_less(#[trigger] rs0[j].0@, name@),
            p < rs0.len() ==> (order == TextOrder::Equal && rs0[p as int].0@ == name@) || (order == TextOrder::Greater && text_less(name@, rs0[p as int].0@)),
        decreases entries.len() - p,
    {
        let current = chars_of(entries[p].0.as_str());
        order = compare_text(&current, &key);
        if order != TextOrder::Less {
            break;
        }
        p = p + 1;
    }
    let ghost n = name@;
    if p < entries.len() && order == TextOrder::Equal {
        entries.set(p, (name, value));
        proof {
            let rs1 = entries@;
            assert forall|i: int, j: int| 0 <= i < j < rs1.len() implies text_less(#[trigger] rs1[i].0@, #[trigger] rs1[j].0@) by {
                assert(rs1[i].0@ == rs0[i].0@);
                assert(rs1[j].0@ == rs0[j].0@);
            }
            assert forall|k: Seq<char>| #[trigger] value_named(rs1, k) == if k == n {
                Some(value)
            } else {
                value_named(rs0, k)
            } by {
                if k == n {
                    lemma_named_at(rs1, p as int);
                } else if exists|i: int| 0 <= i < rs1.len() && #[trigger] rs1[i].0@ == k {
                    let i = choose|i: int| 0 <= i < rs1.len() && #[trigger] rs1[i].0@ == k;
                    lemma_named_at(rs1, i);
                    lemma_named_at(rs0, i);
                } else {
                    assert forall|i: int| 0 <= i < rs0.len() implies #[trigger] rs0[i].0@ != k by {
                        assert(rs1[i].0@ == rs0[i].0@ || i == p);
                    }
                    lemma_named_none(rs0, k);
                    lemma_named_none(rs1, k);
                }
            }
        }
    } else {
        entries.insert(p, (name, value));
        proof {
            let rs1 = entries@;
            assert forall|i: int, j: int| 0 <= i < j < rs1.len() implies text_less(#[trigger] rs1[i].0@, #[trigger] rs1[j].0@) by {
                if j < p {
                } else if j == p {
                } else if i < p {
                    assert(text_less(rs0[i].0@, n));
                    assert(text_less(n, rs0[p as int].0@));
                    lemma_text_less_transitive(rs0[i].0@, n, rs0[p as int].0@, 0);
                    if j - 1 > p {
                        assert(text_less(rs0[p as int].0@, rs0[j - 1].0@));
                        lemma_text_less_transitive(rs0[i].0@, rs0[p as int].0@, rs0[j - 1].0@, 0);
                    }
                } else if i == p {
                    if j - 1 > p {
                        assert(text_less(rs0[p as int].0@, rs0[j - 1].0@));
                        lemma_text_less_transitive(n, rs0[p as int].0@, rs0[j - 1].0@, 0);
                    }
                } else {
                    assert(text_less(rs0[i - 1].0@, rs0[j - 1].0@));
                }
            }
            assert forall|k: Seq<char>| #[trigger] value_named(rs1, k) == if k == n {
                Some(value)
            } else {
                value_named(rs0, k)
            } by {
                if k == n {
                    lemma_named_at(rs1, p as int);
                } else if exists|i: int| 0 <= i < rs1.len() && #[trigger] rs1[i].0@ == k {
                    let i = choose|i: int| 0 <= i < rs1.len() && #[trigger] rs1[i].0@ == k;
                    lemma_named_at(rs1, i);
                    if i < p {
                        lemma_named_at(rs0, i);
                    } else {
                        assert(i != p);
                        lemma_named_at(rs0, i - 1);
                    }
                } else {
                    assert forall|i: int| 0 <= i < rs0.len() implies #[trigger] rs0[i].0@ != k by {
                        if i < p {
                            assert(rs1[i].0@ == rs0[i].0@);
                        } else {
                            assert(rs1[i + 1].0@ == rs0[i].0@);
                        }
                    }
                    lemma_named_none(rs0, k);
                    lemma_named_none(rs1, k);
                }
            }
        }
    }
}
/// The names are all different.
pub open spec fn names_distinct<V>(rs: Seq<(String, V)>) -> bool {
    forall|i: int, j: int| 0 <= i < j < rs.len() ==> (#[trigger] rs[i]).0@ != (#[trigger] rs[j]).0@
}

/// Find the entry kept under `name`.
pub fn find_named<V>(entries: &Vec<(String, V)>, name: &str) -> (r: Option<usize>)
    requires
        names_ordered(entries@),
    ensures
        match r {
            Some(i) => i < entries@.len() && entries@[i as int].0@ == name@ && value_named(entries@, name@) == Some(
                entries@[i as int].1,
            ),
            None => value_named(entries@, name@) == None::<V>,
        },
{
    let key = chars_of(name);
    let mut i: usize = 0;
    while i < entries.len()
        invariant
            names_ordered(entries@),
            key@ == name@,
            i <= entries@.len(),
            forall|j: int| 0 <= j < i ==> (#[trigger] entries@[j]).0@ != name@,
        decreases entries@.len() - i,
    {
        let current = chars_of(entries[i].0.as_str());
        if compare_text(&current, &key) == TextOrder::Equal {
            proof {
                lemma_named_at(entries@, i as int);
            }
            return Some(i);
        }
        i = i + 1;
    }
    proof {
        lemma_named_none(entries@, name@);
    }
    None
}

} // verus!
