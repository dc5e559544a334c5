//! The formatter: serializes the row sequence as delimiter-separated text
//! with a fixed, always-present header (comma for CSV, tab for TSV, standard
//! quoting rules), or as an aligned grid. It also classifies a write failure
//! of the output sink: a broken pipe ends the run silently, anything else is
//! fatal.

use vstd::prelude::*;
use vstd::string::StrSliceExecFns;
use vstd::string::StringExecFns;
use crate::model::ComponentRow;
use crate::model::RowView;
use crate::model::OutputFormat;
use crate::model::WriteError;
use crate::model::views_of;

verus! {

/// Whether a field must be quoted: it holds the delimiter, a quote, or a
/// line break.
pub open spec fn needs_quoting(f: Seq<char>, d: char) -> bool {
    f.contains(d) || f.contains('"') || f.contains('\n') || f.contains('\r')
}

/// A field's characters with every quote doubled.
pub open spec fn esc(f: Seq<char>) -> Seq<char>
    decreases f.len(),
{
    if f.len() == 0 {
        Seq::empty()
    } else {
        esc(f.drop_last()) + (if f.last() == '"' {
            seq!['"', '"']
        } else {
            seq![f.last()]
        })
    }
}

/// One encoded field: quoted and escaped when it needs quoting, verbatim
/// otherwise. An empty parent stays an empty field, never a placeholder.
pub open spec fn enc_field(f: Seq<char>, d: char) -> Seq<char> {
    if needs_quoting(f, d) {
        seq!['"'] + esc(f) + seq!['"']
    } else {
        f
    }
}

/// The encoded fields joined by the delimiter.
pub open spec fn joined(fields: Seq<Seq<char>>, d: char) -> Seq<char>
    decreases fields.len(),
{
    if fields.len() == 0 {
        Seq::empty()
    } else if fields.len() == 1 {
        enc_field(fields[0], d)
    } else {
        joined(fields.drop_last(), d) + seq![d] + enc_field(fields.last(), d)
    }
}

/// One record: the joined fields terminated by a single newline.
pub open spec fn enc_record(fields: Seq<Seq<char>>, d: char) -> Seq<char> {
    joined(fields, d) + seq!['\n']
}

/// The header fields: Type, Parent, Member while splitting is active,
/// Type and Member otherwise.
pub open spec fn header_fields(split: bool) -> Seq<Seq<char>> {
    if split {
        seq!["Type"@, "Parent"@, "Member"@]
    } else {
        seq!["Type"@, "Member"@]
    }
}

/// One row's fields in column order, matching the header.
pub open spec fn row_fields(r: RowView, split: bool) -> Seq<Seq<char>> {
    if split {
        seq![r.metadata_type, r.parent, r.member]
    } else {
        seq![r.metadata_type, r.member]
    }
}

/// The records of all rows, in order.
pub open spec fn body_rows(rows: Seq<RowView>, split: bool, d: char) -> Seq<char>
    decreases rows.len(),
{
    if rows.len() == 0 {
        Seq::empty()
    } else {
        body_rows(rows.drop_last(), split, d) + enc_record(row_fields(rows.last(), split), d)
    }
}

/// The complete delimited output: one header record, then one record per
/// row.
pub open spec fn rendered(rows: Seq<RowView>, split: bool, d: char) -> Seq<char> {
    enc_record(header_fields(split), d) + body_rows(rows, split, d)
}

/// Relies on String::push: appends the given character at the end.
#[verifier::external_body]
fn push_char(s: &mut String, c: char)
    ensures
        final(s)@ == old(s)@ + seq![c],
{
    s.push(c)
}

/// Whether the field needs quoting under delimiter `d`.
fn field_scan(f: &str, d: char) -> (r: bool)
    ensures
        r == needs_quoting(f@, d),
{
    let n = f.unicode_len();
    let mut i: usize = 0;
    while i < n
        invariant
            n == f@.len(),
            i <= n,
            forall|k: int|
                0 <= k < i ==> !(f@[k] == d || f@[k] == '"' || f@[k] == '\n' || f@[k] == '\r'),
        decreases n - i,
    {
        let c = f.get_char(i);
        if c == d || c == '"' || c == '\n' || c == '\r' {
            proof {
                assert(f@.contains(f@[i as int]));
            }
            return true;
        }
        i = i + 1;
    }
    proof {
        assert(!needs_quoting(f@, d));
    }
    false
}

/// Appends one encoded field to `out`.
fn append_field(out: &mut String, f: &str, d: char)
    ensures
        final(out)@ == old(out)@ + enc_field(f@, d),
{
    let ghost start: Seq<char> = out@;
    let needs = field_scan(f, d);
    if needs {
        push_char(out, '"');
        let n = f.unicode_len();
        let mut i: usize = 0;
        proof {
            assert(f@.take(0) =~= Seq::<char>::empty());
            assert(out@ =~= start + seq!['"'] + esc(f@.take(0)));
        }
        while i < n
            invariant
                n == f@.len(),
                i <= n,
                out@ == start + seq!['"'] + esc(f@.take(i as int)),
            decreases n - i,
        {
            let c = f.get_char(i);
            if c == '"' {
                push_char(out, '"');
                push_char(out, '"');
            } else {
                push_char(out, c);
            }
            proof {
                assert(f@.take(i + 1).drop_last() =~= f@.take(i as int));
                assert(f@.take(i + 1).last() == f@[i as int]);
                assert(out@ =~= start + seq!['"'] + esc(f@.take(i + 1)));
            }
            i = i + 1;
        }
        push_char(out, '"');
        proof {
            assert(f@.take(n as int) =~= f@);
            assert(out@ =~= start + enc_field(f@, d));
        }
    } else {
        out.append(f);
        proof {
            assert(out@ =~= start + enc_field(f@, d));
        }
    }
}

/// Appends the header record.
fn append_header(out: &mut String, split: bool, d: char)
    ensures
        final(out)@ == old(out)@ + enc_record(header_fields(split), d),
{
    let ghost start: Seq<char> = out@;
    append_field(out, "Type", d);
    push_char(out, d);
    if split {
        append_field(out, "Parent", d);
        push_char(out, d);
    }
    append_field(out, "Member", d);
    push_char(out, '\n');
    proof {
        let h = header_fields(split);
        let h1 = seq!["Type"@];
        assert(joined(h1, d) == enc_field("Type"@, d));
        if split {
            let h2 = seq!["Type"@, "Parent"@];
            assert(h.drop_last() =~= h2);
            assert(h2.drop_last() =~= h1);
            assert(h2.last() == "Parent"@);
            assert(joined(h2, d) == joined(h1, d) + seq![d] + enc_field("Parent"@, d));
            assert(h.last() == "Member"@);
            assert(joined(h, d) == joined(h2, d) + seq![d] + enc_field("Member"@, d));
        } else {
            assert(h.drop_last() =~= h1);
            assert(h.last() == "Member"@);
            assert(joined(h, d) == joined(h1, d) + seq![d] + enc_field("Member"@, d));
        }
        assert(out@ =~= start + enc_record(h, d));
    }
}

/// Appends one row's record.
fn append_row(out: &mut String, row: &ComponentRow, split: bool, d: char)
    ensures
        final(out)@ == old(out)@ + enc_record(row_fields(row@, split), d),
{
    let ghost start: Seq<char> = out@;
    append_field(out, row.metadata_type.as_str(), d);
    push_char(out, d);
    if split {
        append_field(out, row.parent.as_str(), d);
        push_char(out, d);
    }
    append_field(out, row.member.as_str(), d);
    push_char(out, '\n');
    proof {
        let flds = row_fields(row@, split);
        let f1 = seq![row@.metadata_type];
        assert(joined(f1, d) == enc_field(row@.metadata_type, d));
        if split {
            let f2 = seq![row@.metadata_type, row@.parent];
            assert(flds.drop_last() =~= f2);
            assert(f2.drop_last() =~= f1);
            assert(f2.last() == row@.parent);
            assert(joined(f2, d) == joined(f1, d) + seq![d] + enc_field(row@.parent, d));
            assert(flds.last() == row@.member);
            assert(joined(flds, d) == joined(f2, d) + seq![d] + enc_field(row@.member, d));
        } else {
            assert(flds.drop_last() =~= f1);
            assert(flds.last() == row@.member);
            assert(joined(flds, d) == joined(f1, d) + seq![d] + enc_field(row@.member, d));
        }
        assert(out@ =~= start + enc_record(flds, d));
    }
}

/// Renders the rows as delimited text under delimiter `d`: the header
/// record first — written even when there are no rows — then one record per
/// row, in order.
pub fn render_delimited(rows: &Vec<ComponentRow>, split_active: bool, d: char) -> (out: String)
    ensures
        out@ == rendered(views_of(rows@), split_active, d),
{
    let mut out = String::new();
    append_header(&mut out, split_active, d);
    let mut i: usize = 0;
    proof {
        assert(views_of(rows@).take(0) =~= Seq::<RowView>::empty());
        assert(out@ =~= enc_record(header_fields(split_active), d) + body_rows(
            views_of(rows@).take(0),
            split_active,
            d,
        ));
    }
    while i < rows.len()
        invariant
            i <= rows@.len(),
            out@ == enc_record(header_fields(split_active), d) + body_rows(
                views_of(rows@).take(i as int),
                split_active,
                d,
            ),
        decreases rows@.len() - i,
    {
        append_row(&mut out, &rows[i], split_active, d);
        proof {
            let vs = views_of(rows@);
            assert(vs.take(i + 1).drop_last() =~= vs.take(i as int));
            assert(vs.take(i + 1).last() == rows@[i as int]@);
            assert(out@ =~= enc_record(header_fields(split_active), d) + body_rows(
                vs.take(i + 1),
                split_active,
                d,
            ));
        }
        i = i + 1;
    }
    proof {
        assert(views_of(rows@).take(rows@.len() as int) =~= views_of(rows@));
    }
    out
}

/// Renders the rows as CSV: comma-delimited, header always present.
pub fn render_csv(rows: &Vec<ComponentRow>, split_active: bool) -> (out: String)
    ensures
        out@ == rendered(views_of(rows@), split_active, ','),
{
    render_delimited(rows, split_active, ',')
}

/// Renders the rows as TSV: tab-delimited, header always present.
pub fn render_tsv(rows: &Vec<ComponentRow>, split_active: bool) -> (out: String)
    ensures
        out@ == rendered(views_of(rows@), split_active, '\t'),
{
    render_delimited(rows, split_active, '\t')
}

/// The text of the aligned grid with the given cells, first record the
/// header.
pub uninterp spec fn grid_render_of(cells: Seq<Seq<Seq<char>>>) -> Seq<char>;

/// Relies on tabled's Builder, Table and Style::modern: the grid text it
/// renders is a function of the cell strings alone.
#[verifier::external_body]
fn render_grid(cells: &Vec<Vec<String>>) -> (r: String)
    ensures
        r@ == grid_render_of(cells.deep_view()),
{
    let mut builder = tabled::builder::Builder::default();
    for record in cells.iter() {
        builder.push_record(record.iter().cloned());
    }
    let mut table = builder.build();
    table.with(tabled::settings::Style::modern());
    table.to_string()
}

/// The cell grid of the table: the header labels, then one record per row,
/// fields in column order.
pub open spec fn table_cells(rows: Seq<RowView>, split: bool) -> Seq<Seq<Seq<char>>> {
    seq![header_fields(split)] + rows.map_values(|r: RowView| row_fields(r, split))
}

/// Renders the rows as an aligned grid whose cells are the header labels
/// and the rows' fields, in order.
pub fn render_table(rows: &Vec<ComponentRow>, split_active: bool) -> (out: String)
    ensures
        out@ == grid_render_of(table_cells(views_of(rows@), split_active)),
{
    let mut cells: Vec<Vec<String>> = Vec::new();
    let mut hdr: Vec<String> = Vec::new();
    hdr.push(String::from_str("Type"));
    if split_active {
        hdr.push(String::from_str("Parent"));
    }
    hdr.push(String::from_str("Member"));
    proof {
        assert(hdr.deep_view() =~= header_fields(split_active));
    }
    cells.push(hdr);
    let mut i: usize = 0;
    proof {
        let f = |r: RowView| row_fields(r, split_active);
        assert(views_of(rows@).take(0).map_values(f) =~= Seq::<Seq<Seq<char>>>::empty());
        assert(cells.deep_view() =~= seq![header_fields(split_active)] + views_of(rows@).take(
            0,
        ).map_values(f));
    }
    while i < rows.len()
        invariant
            i <= rows@.len(),
            cells.deep_view() == seq![header_fields(split_active)] + views_of(rows@).take(
                i as int,
            ).map_values(|r: RowView| row_fields(r, split_active)),
        decreases rows@.len() - i,
    {
        let ghost cells_before = cells.deep_view();
        let r = &rows[i];
        let mut line: Vec<String> = Vec::new();
        line.push(r.metadata_type.clone());
        if split_active {
            line.push(r.parent.clone());
        }
        line.push(r.member.clone());
        cells.push(line);
        proof {
            let f = |r: RowView| row_fields(r, split_active);
            let vs = views_of(rows@);
            assert(line.deep_view() =~= row_fields(rows@[i as int]@, split_active));
            assert(cells.deep_view() =~= cells_before.push(line.deep_view()));
            assert(vs.take(i + 1).map_values(f) =~= vs.take(i as int).map_values(f).push(
                f(vs[i as int]),
            ));
            assert(cells.deep_view() =~= seq![header_fields(split_active)] + vs.take(
                i + 1,
            ).map_values(f));
        }
        i = i + 1;
    }
    proof {
        assert(views_of(rows@).take(rows@.len() as int) =~= views_of(rows@));
        assert(cells.deep_view() =~= table_cells(views_of(rows@), split_active));
    }
    render_grid(&cells)
}

/// Renders the rows in the requested output format, splitting active or
/// not: a grid for `Table`, comma-delimited text for `Csv`, tab-delimited
/// text for `Tsv`.
pub fn render(rows: &Vec<ComponentRow>, format: &OutputFormat, split_active: bool) -> (out: String)
    ensures
        match *format {
            OutputFormat::Table => out@ == grid_render_of(
                table_cells(views_of(rows@), split_active),
            ),
            OutputFormat::Csv => out@ == rendered(views_of(rows@), split_active, ','),
            OutputFormat::Tsv => out@ == rendered(views_of(rows@), split_active, '\t'),
        },
{
    match format {
        OutputFormat::Table => render_table(rows, split_active),
        OutputFormat::Csv => render_csv(rows, split_active),
        OutputFormat::Tsv => render_tsv(rows, split_active),
    }
}

/// Classifies the outcome of writing the rendered output: success when the
/// sink accepted everything, and also when it failed with a broken pipe —
/// the consumer stopping early is a normal, silent end of the run. Any
/// other write failure is fatal.
pub fn write_accepted(r: &Result<(), WriteError>) -> (ok: bool)
    ensures
        ok == (*r != Err::<(), WriteError>(WriteError::Other)),
{
    match r {
        Ok(_) => true,
        Err(WriteError::BrokenPipe) => true,
        Err(WriteError::Other) => false,
    }
}

/// Delimited output carries exactly one header record even with zero rows:
/// the whole output is then the header record alone. The header has three
/// fields while splitting is active, two otherwise.
pub proof fn lemma_header_always_present(split: bool, d: char)
    ensures
        rendered(Seq::<RowView>::empty(), split, d) == enc_record(header_fields(split), d),
        header_fields(split).len() == (if split {
            3int
        } else {
            2int
        }),
{
    assert(rendered(Seq::<RowView>::empty(), split, d) =~= enc_record(header_fields(split), d));
}

} // verus!
