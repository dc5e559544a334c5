//! The sorter: a total ordering on display rows — lexicographic on the
//! (type, parent, member) tuple with codepoint string order — and an
//! insertion sort that realizes it.

use vstd::prelude::*;
use vstd::multiset::Multiset;
use crate::model::ComponentRow;
use crate::model::RowView;
use crate::model::views_of;
use crate::text::lemma_seq_le_antisym;
use crate::text::lemma_seq_le_total;
use crate::text::lemma_seq_le_trans;
use crate::text::seq_le;
use crate::text::str_eq;
use crate::text::str_le;

verus! {

/// The row order: lexicographic on the (type, parent, member) tuple, each
/// component compared by codepoint. Rows with identical tuples compare equal
/// both ways.
pub open spec fn row_le(a: RowView, b: RowView) -> bool {
    if a.metadata_type != b.metadata_type {
        seq_le(a.metadata_type, b.metadata_type)
    } else if a.parent != b.parent {
        seq_le(a.parent, b.parent)
    } else {
        seq_le(a.member, b.member)
    }
}

/// Non-decreasing under `row_le`.
pub open spec fn sorted_rows(s: Seq<RowView>) -> bool {
    forall|i: int, j: int| 0 <= i < j < s.len() ==> row_le(s[i], s[j])
}

/// `row_le` is total: any two rows are comparable.
pub proof fn lemma_row_le_total(a: RowView, b: RowView)
    ensures
        row_le(a, b) || row_le(b, a),
{
    lemma_seq_le_total(a.metadata_type, b.metadata_type);
    lemma_seq_le_total(a.parent, b.parent);
    lemma_seq_le_total(a.member, b.member);
}

/// `row_le` is transitive.
pub proof fn lemma_row_le_trans(a: RowView, b: RowView, c: RowView)
    requires
        row_le(a, b),
        row_le(b, c),
    ensures
        row_le(a, c),
{
    if a.metadata_type != b.metadata_type && b.metadata_type != c.metadata_type {
        lemma_seq_le_trans(a.metadata_type, b.metadata_type, c.metadata_type);
        if a.metadata_type == c.metadata_type {
            lemma_seq_le_antisym(a.metadata_type, b.metadata_type);
        }
    } else if a.metadata_type == b.metadata_type && b.metadata_type == c.metadata_type {
        if a.parent != b.parent && b.parent != c.parent {
            lemma_seq_le_trans(a.parent, b.parent, c.parent);
            if a.parent == c.parent {
                lemma_seq_le_antisym(a.parent, b.parent);
            }
        } else if a.parent == b.parent && b.parent == c.parent {
            lemma_seq_le_trans(a.member, b.member, c.member);
        }
    }
}

/// Whether `a` precedes or equals `b` in the row order.
pub fn row_le_exec(a: &ComponentRow, b: &ComponentRow) -> (r: bool)
    ensures
        r == row_le(a@, b@),
{
    if !str_eq(a.metadata_type.as_str(), b.metadata_type.as_str()) {
        str_le(a.metadata_type.as_str(), b.metadata_type.as_str())
    } else if !str_eq(a.parent.as_str(), b.parent.as_str()) {
        str_le(a.parent.as_str(), b.parent.as_str())
    } else {
        str_le(a.member.as_str(), b.member.as_str())
    }
}

/// Places `row` into the sorted vector `out`, keeping it sorted; the
/// contents afterwards are the old contents plus `row`.
fn insert_sorted(out: &mut Vec<ComponentRow>, row: ComponentRow)
    requires
        sorted_rows(views_of(old(out)@)),
    ensures
        sorted_rows(views_of(final(out)@)),
        views_of(final(out)@).to_multiset() == views_of(old(out)@).to_multiset().insert(row@),
{
    let ghost s_old: Seq<ComponentRow> = out@;
    let mut j: usize = 0;
    while j < out.len() && row_le_exec(&out[j], &row)
        invariant
            out@ == s_old,
            j <= out@.len(),
            forall|k: int| 0 <= k < j ==> row_le(out@[k]@, row@),
        decreases out@.len() - j,
    {
        j = j + 1;
    }
    proof {
        if j < out@.len() {
            lemma_row_le_total(out@[j as int]@, row@);
        }
    }
    out.insert(j, row);
    proof {
        s_old.insert_ensures(j as int, row);
        let nv = views_of(out@);
        let ov = views_of(s_old);
        assert(nv =~= ov.insert(j as int, row@)) by {
            ov.insert_ensures(j as int, row@);
        }
        assert forall|x: int, y: int| 0 <= x < y < nv.len() implies row_le(nv[x], nv[y]) by {
            if y < j {
            } else if x < j && y == j {
            } else if x < j && y > j {
            } else if x == j && y > j {
                if y - 1 > j {
                    assert(ov[j as int] == s_old[j as int]@);
                    assert(ov[y - 1] == s_old[y - 1]@);
                    assert(row_le(ov[j as int], ov[y - 1]));
                    lemma_row_le_trans(row@, s_old[j as int]@, s_old[y - 1]@);
                }
            }
        }
        assert(ov.insert(j as int, row@).to_multiset() == ov.to_multiset().insert(row@)) by {
            broadcast use vstd::seq_lib::to_multiset_insert;

        }
    }
}

/// Sorts the rows into non-decreasing `row_le` order. The result is a
/// permutation of the input; rows with identical (type, parent, member)
/// tuples may appear in either relative order.
pub fn sort_rows(input: Vec<ComponentRow>) -> (out: Vec<ComponentRow>)
    ensures
        sorted_rows(views_of(out@)),
        views_of(out@).to_multiset() == views_of(input@).to_multiset(),
{
    let ghost all: Seq<ComponentRow> = input@;
    let mut rest = input;
    let mut out: Vec<ComponentRow> = Vec::new();
    proof {
        assert(views_of(out@) =~= Seq::<RowView>::empty());
        assert(views_of(all).to_multiset() =~= views_of(out@).to_multiset().add(
            views_of(rest@).to_multiset(),
        )) by {
            broadcast use vstd::seq_lib::group_to_multiset_ensures;
            broadcast use vstd::multiset::group_multiset_axioms;

            assert(views_of(out@).to_multiset() =~= Multiset::<RowView>::empty());
        }
    }
    while rest.len() > 0
        invariant
            sorted_rows(views_of(out@)),
            views_of(all).to_multiset() == views_of(out@).to_multiset().add(
                views_of(rest@).to_multiset(),
            ),
        decreases rest@.len(),
    {
        let ghost rest_before: Seq<ComponentRow> = rest@;
        let row = rest.remove(0);
        insert_sorted(&mut out, row);
        proof {
            assert(views_of(rest@) =~= views_of(rest_before).remove(0)) by {
                rest_before.remove_ensures(0);
                views_of(rest_before).remove_ensures(0);
            }
            assert(views_of(rest_before).to_multiset() == views_of(rest@).to_multiset().insert(
                row@,
            )) by {
                broadcast use vstd::seq_lib::to_multiset_remove;
                broadcast use vstd::multiset::group_multiset_axioms;

                assert(views_of(rest_before).remove(0).to_multiset()
                    == views_of(rest_before).to_multiset().remove(views_of(rest_before)[0]));
                assert(views_of(rest_before)[0] == row@);
                assert(views_of(rest_before).to_multiset().count(row@) > 0) by {
                    broadcast use vstd::seq_lib::group_to_multiset_ensures;

                    assert(views_of(rest_before).contains(row@));
                }
                assert(views_of(rest_before).to_multiset().remove(row@).insert(row@)
                    =~= views_of(rest_before).to_multiset());
            }
            assert(views_of(out@).to_multiset().add(views_of(rest@).to_multiset())
                =~= views_of(all).to_multiset()) by {
                broadcast use vstd::multiset::group_multiset_axioms;

            }
        }
    }
    proof {
        assert(views_of(rest@) =~= Seq::<RowView>::empty());
        assert(views_of(rest@).to_multiset() =~= Multiset::<RowView>::empty()) by {
            broadcast use vstd::seq_lib::group_to_multiset_ensures;

        }
        assert(views_of(out@).to_multiset() =~= views_of(all).to_multiset()) by {
            broadcast use vstd::multiset::group_multiset_axioms;

        }
    }
    out
}

} // verus!
