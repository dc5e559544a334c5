//! A viewer library for declarative metadata manifests: it flattens a
//! manifest's type groups into display rows, optionally splitting composite
//! member identifiers into parent and leaf parts, sorts the rows, and renders
//! them as an aligned table or as delimiter-separated text.

pub mod flatten;
pub mod model;
pub mod policy;
pub mod render;
pub mod sorting;
pub mod text;

pub use flatten::flatten_components;
pub use model::ComponentRow;
pub use model::OutputFormat;
pub use model::Package;
pub use model::RowView;
pub use model::SortOrder;
pub use model::Types;
pub use model::WriteError;
pub use render::render;
pub use render::render_csv;
pub use render::render_table;
pub use render::render_tsv;
pub use render::write_accepted;
pub use sorting::sort_rows;
