use packview::flatten_components;
use packview::render;
use packview::render_csv;
use packview::render_table;
use packview::render_tsv;
use packview::write_accepted;
use packview::ComponentRow;
use packview::OutputFormat;
use packview::Package;
use packview::SortOrder;
use packview::Types;
use packview::WriteError;

fn row(metadata_type: &str, parent: &str, member: &str) -> ComponentRow {
    ComponentRow {
        metadata_type: metadata_type.to_string(),
        parent: parent.to_string(),
        member: member.to_string(),
    }
}

#[test]
fn output_csv_empty_rows() {
    let rows: Vec<ComponentRow> = vec![];
    let out = render_csv(&rows, true);
    assert_eq!(out, "Type,Parent,Member\n");
}

#[test]
fn output_csv_single_row() {
    let rows = vec![row("ApexClass", "", "MyClass")];
    let out = render_csv(&rows, true);
    assert_eq!(out, "Type,Parent,Member\nApexClass,,MyClass\n");
}

#[test]
fn output_csv_multiple_rows() {
    let rows = vec![row("ApexClass", "", "ClassA"), row("ApexTrigger", "", "TriggerA")];
    let out = render_csv(&rows, true);
    assert_eq!(out, "Type,Parent,Member\nApexClass,,ClassA\nApexTrigger,,TriggerA\n");
}

#[test]
fn output_tsv_empty_rows() {
    let rows: Vec<ComponentRow> = vec![];
    let out = render_tsv(&rows, true);
    assert_eq!(out, "Type\tParent\tMember\n");
}

#[test]
fn output_tsv_single_row() {
    let rows = vec![row("ApexClass", "", "MyClass")];
    let out = render_tsv(&rows, true);
    assert_eq!(out, "Type\tParent\tMember\nApexClass\t\tMyClass\n");
}

#[test]
fn output_csv_with_parent_column() {
    let rows = vec![row("CustomField", "Account", "Active__c")];
    let out = render_csv(&rows, true);
    assert_eq!(out, "Type,Parent,Member\nCustomField,Account,Active__c\n");
}

#[test]
fn csv_two_columns_when_split_inactive() {
    let rows = vec![row("ApexClass", "", "MyClass")];
    let out = render_csv(&rows, false);
    assert_eq!(out, "Type,Member\nApexClass,MyClass\n");
}

#[test]
fn csv_header_has_two_fields_when_split_inactive() {
    let rows: Vec<ComponentRow> = vec![];
    let out = render_csv(&rows, false);
    assert_eq!(out, "Type,Member\n");
}

#[test]
fn csv_quotes_field_with_comma() {
    let rows = vec![row("ApexClass", "", "a,b")];
    let out = render_csv(&rows, true);
    assert_eq!(out, "Type,Parent,Member\nApexClass,,\"a,b\"\n");
}

#[test]
fn csv_doubles_quote_inside_field() {
    let rows = vec![row("ApexClass", "", "a\"b")];
    let out = render_csv(&rows, true);
    assert_eq!(out, "Type,Parent,Member\nApexClass,,\"a\"\"b\"\n");
}

#[test]
fn csv_quotes_field_with_newline() {
    let rows = vec![row("ApexClass", "", "a\nb")];
    let out = render_csv(&rows, true);
    assert_eq!(out, "Type,Parent,Member\nApexClass,,\"a\nb\"\n");
}

#[test]
fn csv_leaves_tab_unquoted() {
    let rows = vec![row("ApexClass", "", "a\tb")];
    let out = render_csv(&rows, true);
    assert_eq!(out, "Type,Parent,Member\nApexClass,,a\tb\n");
}

#[test]
fn tsv_quotes_field_with_tab() {
    let rows = vec![row("ApexClass", "", "a\tb")];
    let out = render_tsv(&rows, true);
    assert_eq!(out, "Type\tParent\tMember\nApexClass\t\t\"a\tb\"\n");
}

#[test]
fn csv_round_trip_custom_field() {
    let package = Package {
        types: vec![Types {
            name: "CustomField".to_string(),
            members: vec!["Account.Active__c".to_string()],
        }],
    };
    let rows = flatten_components(&package, &SortOrder::AsIs, true);
    let out = render_csv(&rows, true);
    assert_eq!(out, "Type,Parent,Member\nCustomField,Account,Active__c\n");
}

#[test]
fn render_dispatches_on_format() {
    let rows = vec![row("ApexClass", "", "MyClass")];
    assert_eq!(render(&rows, &OutputFormat::Csv, true), render_csv(&rows, true));
    assert_eq!(render(&rows, &OutputFormat::Tsv, true), render_tsv(&rows, true));
    assert_eq!(render(&rows, &OutputFormat::Table, true), render_table(&rows, true));
}

#[test]
fn table_holds_header_and_cells() {
    let rows = vec![row("CustomField", "Account", "Active__c")];
    let out = render_table(&rows, true);
    assert!(out.contains("Type"));
    assert!(out.contains("Parent"));
    assert!(out.contains("Member"));
    assert!(out.contains("CustomField"));
    assert!(out.contains("Account"));
    assert!(out.contains("Active__c"));
}

#[test]
fn table_omits_parent_column_when_split_inactive() {
    let rows = vec![row("ApexClass", "", "MyClass")];
    let out = render_table(&rows, false);
    assert!(out.contains("Type"));
    assert!(!out.contains("Parent"));
    assert!(out.contains("MyClass"));
}

#[test]
fn broken_pipe_is_silent_success() {
    assert!(write_accepted(&Ok(())));
    assert!(write_accepted(&Err(WriteError::BrokenPipe)));
}

#[test]
fn other_write_failure_is_fatal() {
    assert!(!write_accepted(&Err(WriteError::Other)));
}
