//! The data model: a manifest as an ordered sequence of named type groups,
//! and the flat display row produced from it, together with the mathematical
//! views that the contracts speak of.

use vstd::prelude::*;

verus! {

/// One named category of components, with an ordered list of member
/// identifiers. Member strings are opaque except for the split policy.
pub struct Types {
    pub members: Vec<String>,
    pub name: String,
}

/// The loaded manifest: an ordered sequence of type groups. An empty manifest
/// is valid and produces no rows.
pub struct Package {
    pub types: Vec<Types>,
}

/// One flattened, display-ready record. `parent` is the empty string when no
/// split applies or when no separator was found; that empty string is a
/// concrete value, not absent data, and renders as an empty field.
#[derive(Debug)]
pub struct ComponentRow {
    pub metadata_type: String,
    pub parent: String,
    pub member: String,
}

/// The mathematical view of a `Types` group: its name and members as
/// character sequences.
pub struct GroupView {
    pub name: Seq<char>,
    pub members: Seq<Seq<char>>,
}

/// The mathematical view of a `ComponentRow`.
pub struct RowView {
    pub metadata_type: Seq<char>,
    pub parent: Seq<char>,
    pub member: Seq<char>,
}

impl View for Types {
    type V = GroupView;

    open spec fn view(&self) -> GroupView {
        GroupView { name: self.name@, members: self.members.deep_view() }
    }
}

impl View for Package {
    type V = Seq<GroupView>;

    open spec fn view(&self) -> Seq<GroupView> {
        self.types@.map_values(|t: Types| t@)
    }
}

impl View for ComponentRow {
    type V = RowView;

    open spec fn view(&self) -> RowView {
        RowView {
            metadata_type: self.metadata_type@,
            parent: self.parent@,
            member: self.member@,
        }
    }
}

impl PartialEq for ComponentRow {
    fn eq(&self, other: &ComponentRow) -> (r: bool) {
        self.metadata_type == other.metadata_type && self.parent == other.parent
            && self.member == other.member
    }
}

impl vstd::std_specs::cmp::PartialEqSpecImpl for ComponentRow {
    open spec fn obeys_eq_spec() -> bool {
        true
    }

    open spec fn eq_spec(&self, other: &ComponentRow) -> bool {
        self.metadata_type@ == other.metadata_type@ && self.parent@ == other.parent@
            && self.member@ == other.member@
    }
}

/// The views of a sequence of rows.
pub open spec fn views_of(s: Seq<ComponentRow>) -> Seq<RowView> {
    s.map_values(|r: ComponentRow| r@)
}

/// The order to apply to the flattened rows.
#[derive(Clone, Copy, Debug, PartialEq, Eq, Structural)]
pub enum SortOrder {
    ByType,
    AsIs,
}

/// The serialization to apply to the sorted rows.
#[derive(Clone, Copy, Debug, PartialEq, Eq, Structural)]
pub enum OutputFormat {
    Table,
    Csv,
    Tsv,
}

/// A failure of the output sink, as the caller classified it. A broken pipe
/// means the downstream consumer stopped reading; every other write failure
/// is fatal.
#[derive(Clone, Copy, Debug, PartialEq, Eq, Structural)]
pub enum WriteError {
    BrokenPipe,
    Other,
}

} // verus!
