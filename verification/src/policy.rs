//! The split policy: a fixed table from type name to the separator character,
//! if any, on which that type's member identifiers decompose into a parent
//! and a leaf part.

use vstd::prelude::*;
use crate::text::str_eq;

verus! {

/// Whether members of a type named `name` split on the first `'.'`.
pub open spec fn splits_on_dot(name: Seq<char>) -> bool {
    ||| name == "AssignmentRule"@
    ||| name == "CustomField"@
    ||| name == "ListView"@
    ||| name == "RecordType"@
    ||| name == "SharingCriteriaRule"@
    ||| name == "SharingOwnerRule"@
    ||| name == "SharingTerritoryRule"@
}

/// Whether members of a type named `name` split on the first `'-'`.
pub open spec fn splits_on_hyphen(name: Seq<char>) -> bool {
    name == "Layout"@
}

/// The separator assigned to a type name, if any. The table is fixed at
/// build time; only the global split toggle can disable it.
pub open spec fn sep_for(name: Seq<char>) -> Option<char> {
    if splits_on_dot(name) {
        Some('.')
    } else if splits_on_hyphen(name) {
        Some('-')
    } else {
        None
    }
}

/// Looks the type name up in the split-policy table.
pub fn sep_lookup(name: &str) -> (r: Option<char>)
    ensures
        r == sep_for(name@),
{
    if str_eq(name, "AssignmentRule") || str_eq(name, "CustomField") || str_eq(name, "ListView")
        || str_eq(name, "RecordType") || str_eq(name, "SharingCriteriaRule")
        || str_eq(name, "SharingOwnerRule") || str_eq(name, "SharingTerritoryRule") {
        Some('.')
    } else if str_eq(name, "Layout") {
        Some('-')
    } else {
        None
    }
}

} // verus!
