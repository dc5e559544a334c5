//! The row flattener and splitter: expands the manifest's type/member
//! hierarchy into a flat row sequence, optionally decomposing composite
//! member identifiers into a parent and a leaf part, then applies the chosen
//! sort order.

use vstd::prelude::*;
use vstd::string::StrSliceExecFns;
use vstd::string::StringExecFns;
use crate::model::ComponentRow;
use crate::model::GroupView;
use crate::model::Package;
use crate::model::RowView;
use crate::model::SortOrder;
use crate::model::views_of;
use crate::policy::sep_for;
use crate::policy::sep_lookup;
use crate::sorting::sort_rows;
use crate::sorting::sorted_rows;
use crate::text::find_first;

verus! {

/// The row for a member left whole: empty parent, member unchanged. This is
/// also the shape of a splittable member without a separator, so an empty
/// parent does not tell the two apart; that ambiguity is deliberate.
pub open spec fn unsplit_row(name: Seq<char>, m: Seq<char>) -> RowView {
    RowView { metadata_type: name, parent: Seq::empty(), member: m }
}

/// The row produced for one member `m` of a group named `name`. When
/// splitting is on and the policy assigns the group a separator that occurs
/// in `m`, the member decomposes at the first occurrence; otherwise the
/// member passes through whole with an empty parent.
pub open spec fn row_of(name: Seq<char>, m: Seq<char>, split: bool) -> RowView {
    if split {
        match sep_for(name) {
            Some(c) => if m.contains(c) {
                let i = m.index_of_first(c).unwrap();
                RowView {
                    metadata_type: name,
                    parent: m.subrange(0, i),
                    member: m.subrange(i + 1, m.len() as int),
                }
            } else {
                unsplit_row(name, m)
            },
            None => unsplit_row(name, m),
        }
    } else {
        unsplit_row(name, m)
    }
}

/// All rows of one group, in member order.
pub open spec fn group_rows(g: GroupView, split: bool) -> Seq<RowView> {
    g.members.map_values(|m: Seq<char>| row_of(g.name, m, split))
}

/// All rows of the manifest, group order preserved and member order
/// preserved within each group.
pub open spec fn flattened(groups: Seq<GroupView>, split: bool) -> Seq<RowView>
    decreases groups.len(),
{
    if groups.len() == 0 {
        Seq::empty()
    } else {
        flattened(groups.drop_last(), split) + group_rows(groups.last(), split)
    }
}

/// Builds the row for one member of the group named `name`.
fn make_row(name: &String, m: &String, split: bool) -> (r: ComponentRow)
    ensures
        r@ == row_of(name@, m@, split),
{
    if split {
        match sep_lookup(name.as_str()) {
            Some(c) => {
                let ms = m.as_str();
                match find_first(ms, c) {
                    Some(i) => {
                        proof {
                            m@.index_of_first_ensures(c);
                        }
                        let n = ms.unicode_len();
                        let parent = String::from_str(ms.substring_char(0, i));
                        let leaf = String::from_str(ms.substring_char(i + 1, n));
                        ComponentRow { metadata_type: name.clone(), parent, member: leaf }
                    },
                    None => ComponentRow {
                        metadata_type: name.clone(),
                        parent: String::new(),
                        member: m.clone(),
                    },
                }
            },
            None => ComponentRow {
                metadata_type: name.clone(),
                parent: String::new(),
                member: m.clone(),
            },
        }
    } else {
        ComponentRow { metadata_type: name.clone(), parent: String::new(), member: m.clone() }
    }
}

/// Flattens the manifest into display rows and applies the sort order.
///
/// With `AsIs` the result is exactly the flattened sequence, group and
/// member order preserved. With `ByType` the result is a permutation of it,
/// non-decreasing in the (type, parent, member) row order.
pub fn flatten_components(package: &Package, sort_order: &SortOrder, split_parent: bool) -> (rows:
    Vec<ComponentRow>)
    ensures
        match *sort_order {
            SortOrder::AsIs => views_of(rows@) == flattened(package@, split_parent),
            SortOrder::ByType => sorted_rows(views_of(rows@)) && views_of(rows@).to_multiset()
                == flattened(package@, split_parent).to_multiset(),
        },
{
    let mut rows: Vec<ComponentRow> = Vec::new();
    let mut gi: usize = 0;
    proof {
        assert(views_of(rows@) =~= Seq::<RowView>::empty());
        assert(package@.take(0) =~= Seq::<GroupView>::empty());
    }
    while gi < package.types.len()
        invariant
            gi <= package.types.len(),
            views_of(rows@) == flattened(package@.take(gi as int), split_parent),
        decreases package.types.len() - gi,
    {
        let t = &package.types[gi];
        let ghost g: GroupView = package@[gi as int];
        proof {
            assert(g == t@);
        }
        let mut mi: usize = 0;
        proof {
            assert(g.members.take(0) =~= Seq::<Seq<char>>::empty());
            assert(g.members.take(0).map_values(|m: Seq<char>| row_of(g.name, m, split_parent))
                =~= Seq::<RowView>::empty());
            assert(views_of(rows@) =~= flattened(package@.take(gi as int), split_parent)
                + g.members.take(0).map_values(|m: Seq<char>| row_of(g.name, m, split_parent)));
        }
        while mi < t.members.len()
            invariant
                gi < package.types.len(),
                t == &package.types[gi as int],
                g == package@[gi as int],
                g == t@,
                mi <= t.members.len(),
                views_of(rows@) == flattened(package@.take(gi as int), split_parent)
                    + g.members.take(mi as int).map_values(
                    |m: Seq<char>| row_of(g.name, m, split_parent),
                ),
            decreases t.members.len() - mi,
        {
            let ghost rows_before: Seq<ComponentRow> = rows@;
            let row = make_row(&t.name, &t.members[mi], split_parent);
            rows.push(row);
            proof {
                let f = |m: Seq<char>| row_of(g.name, m, split_parent);
                assert(g.members[mi as int] == t.members[mi as int]@);
                assert(views_of(rows@) =~= views_of(rows_before).push(row@));
                assert(g.members.take(mi + 1).map_values(f) =~= g.members.take(mi as int).map_values(
                    f,
                ).push(f(g.members[mi as int])));
                assert(views_of(rows@) =~= flattened(package@.take(gi as int), split_parent)
                    + g.members.take(mi + 1).map_values(f));
            }
            mi = mi + 1;
        }
        proof {
            let f = |m: Seq<char>| row_of(g.name, m, split_parent);
            assert(g.members.take(g.members.len() as int) =~= g.members);
            assert(group_rows(g, split_parent) == g.members.map_values(f));
            let next = package@.take(gi + 1);
            assert(next.drop_last() =~= package@.take(gi as int));
            assert(next.last() == g);
            assert(flattened(next, split_parent) == flattened(package@.take(gi as int),
                split_parent) + group_rows(g, split_parent));
            assert(views_of(rows@) =~= flattened(next, split_parent));
        }
        gi = gi + 1;
    }
    proof {
        assert(package@.take(package.types@.len() as int) =~= package@);
    }
    match sort_order {
        SortOrder::AsIs => rows,
        SortOrder::ByType => sort_rows(rows),
    }
}

/// A manifest with no groups, or whose groups all have no members, flattens
/// to no rows at all.
pub proof fn lemma_flatten_empty(groups: Seq<GroupView>, split: bool)
    requires
        forall|i: int| 0 <= i < groups.len() ==> #[trigger] groups[i].members.len() == 0,
    ensures
        flattened(groups, split).len() == 0,
    decreases groups.len(),
{
    if groups.len() > 0 {
        lemma_flatten_empty(groups.drop_last(), split);
        assert(groups[groups.len() - 1].members.len() == 0);
    }
}

/// What splitting does to one member of a splittable type, with the toggle
/// on: if the separator occurs, the parent is the part before its first
/// occurrence and the member everything after it, later occurrences
/// included; if it does not occur, the parent is empty and the member
/// passes through unchanged.
pub proof fn lemma_split_semantics(name: Seq<char>, m: Seq<char>, c: char)
    requires
        sep_for(name) == Some(c),
    ensures
        m.contains(c) ==> ({
            let i = m.index_of_first(c).unwrap();
            &&& 0 <= i < m.len()
            &&& m[i] == c
            &&& (forall|k: int| 0 <= k < i ==> m[k] != c)
            &&& row_of(name, m, true).metadata_type == name
            &&& row_of(name, m, true).parent == m.subrange(0, i)
            &&& row_of(name, m, true).member == m.subrange(i + 1, m.len() as int)
        }),
        !m.contains(c) ==> row_of(name, m, true) == unsplit_row(name, m),
{
    if m.contains(c) {
        m.index_of_first_ensures(c);
    }
}

/// With the split toggle off every flattened row has an empty parent,
/// whatever the type and whether a separator occurs in the member.
pub proof fn lemma_no_split_when_disabled(groups: Seq<GroupView>)
    ensures
        forall|i: int|
            0 <= i < flattened(groups, false).len() ==> #[trigger] flattened(groups, false)[i].parent
                == Seq::<char>::empty(),
    decreases groups.len(),
{
    if groups.len() > 0 {
        lemma_no_split_when_disabled(groups.drop_last());
        let pre = flattened(groups.drop_last(), false);
        let g = groups.last();
        assert forall|i: int|
            0 <= i < flattened(groups, false).len() implies #[trigger] flattened(
            groups,
            false,
        )[i].parent == Seq::<char>::empty() by {
            if i < pre.len() {
                assert(flattened(groups, false)[i] == pre[i]);
            } else {
                let j = i - pre.len();
                assert(flattened(groups, false)[i] == group_rows(g, false)[j]);
                assert(group_rows(g, false)[j] == row_of(g.name, g.members[j], false));
            }
        }
    }
}

} // verus!
