use packview::flatten_components;
use packview::ComponentRow;
use packview::Package;
use packview::SortOrder;
use packview::Types;

// Helper function to create Package for testing
fn make_package(types: Vec<(&str, Vec<&str>)>) -> Package {
    Package {
        types: types
            .into_iter()
            .map(|(name, members)| Types {
                name: name.to_string(),
                members: members.into_iter().map(|m| m.to_string()).collect(),
            })
            .collect(),
    }
}

#[test]
fn flatten_empty_package() {
    let package = make_package(vec![]);
    let rows = flatten_components(&package, &SortOrder::ByType, false);
    assert!(rows.is_empty());
}

#[test]
fn flatten_empty_types() {
    let package = make_package(vec![("ApexClass", vec![])]);
    let rows = flatten_components(&package, &SortOrder::ByType, false);
    assert!(rows.is_empty());
}

#[test]
fn flatten_single_type_single_member() {
    let package = make_package(vec![("ApexClass", vec!["MyClass"])]);
    let rows = flatten_components(&package, &SortOrder::AsIs, false);
    assert_eq!(rows.len(), 1);
    assert_eq!(
        rows[0],
        ComponentRow {
            metadata_type: "ApexClass".to_string(),
            parent: String::new(),
            member: "MyClass".to_string(),
        }
    );
}

#[test]
fn flatten_single_type_multiple_members() {
    let package = make_package(vec![("ApexClass", vec!["ClassA", "ClassB", "ClassC"])]);
    let rows = flatten_components(&package, &SortOrder::AsIs, false);
    assert_eq!(rows.len(), 3);
    assert_eq!(rows[0].member, "ClassA");
    assert_eq!(rows[1].member, "ClassB");
    assert_eq!(rows[2].member, "ClassC");
}

#[test]
fn flatten_multiple_types_multiple_members() {
    let package = make_package(vec![
        ("ApexClass", vec!["ClassA"]),
        ("ApexTrigger", vec!["TriggerA", "TriggerB"]),
    ]);
    let rows = flatten_components(&package, &SortOrder::AsIs, false);
    assert_eq!(rows.len(), 3);
    assert_eq!(rows[0].metadata_type, "ApexClass");
    assert_eq!(rows[1].metadata_type, "ApexTrigger");
    assert_eq!(rows[2].metadata_type, "ApexTrigger");
}

#[test]
fn flatten_by_type_sorts_types_alphabetically() {
    let package = make_package(vec![
        ("CustomObject", vec!["Account"]),
        ("ApexClass", vec!["MyClass"]),
    ]);
    let rows = flatten_components(&package, &SortOrder::ByType, false);
    assert_eq!(rows[0].metadata_type, "ApexClass");
    assert_eq!(rows[1].metadata_type, "CustomObject");
}

#[test]
fn flatten_as_is_preserves_order() {
    let package = make_package(vec![
        ("CustomObject", vec!["Account"]),
        ("ApexClass", vec!["MyClass"]),
    ]);
    let rows = flatten_components(&package, &SortOrder::AsIs, false);
    assert_eq!(rows[0].metadata_type, "CustomObject");
    assert_eq!(rows[1].metadata_type, "ApexClass");
}

#[test]
fn flatten_by_type_sorts_members_within_type() {
    let package = make_package(vec![("ApexClass", vec!["Zebra", "Alpha", "Middle"])]);
    let rows = flatten_components(&package, &SortOrder::ByType, false);
    assert_eq!(rows[0].member, "Alpha");
    assert_eq!(rows[1].member, "Middle");
    assert_eq!(rows[2].member, "Zebra");
}

#[test]
fn flatten_splits_parent_for_custom_field() {
    let package = make_package(vec![("CustomField", vec!["Account.Active__c"])]);
    let rows = flatten_components(&package, &SortOrder::AsIs, true);
    assert_eq!(rows[0].parent, "Account");
    assert_eq!(rows[0].member, "Active__c");
}

#[test]
fn flatten_splits_parent_for_record_type() {
    let package = make_package(vec![("RecordType", vec!["Metric.Completion"])]);
    let rows = flatten_components(&package, &SortOrder::AsIs, true);
    assert_eq!(rows[0].parent, "Metric");
    assert_eq!(rows[0].member, "Completion");
}

#[test]
fn flatten_splits_only_first_dot() {
    let package = make_package(vec![("CustomField", vec!["Account.Sub.Field__c"])]);
    let rows = flatten_components(&package, &SortOrder::AsIs, true);
    assert_eq!(rows[0].parent, "Account");
    assert_eq!(rows[0].member, "Sub.Field__c");
}

#[test]
fn flatten_no_split_when_disabled() {
    let package = make_package(vec![("CustomField", vec!["Account.Active__c"])]);
    let rows = flatten_components(&package, &SortOrder::AsIs, false);
    assert_eq!(rows[0].parent, "");
    assert_eq!(rows[0].member, "Account.Active__c");
}

#[test]
fn flatten_no_split_for_non_splittable_type() {
    let package = make_package(vec![("ApexClass", vec!["MyClass.Inner"])]);
    let rows = flatten_components(&package, &SortOrder::AsIs, true);
    assert_eq!(rows[0].parent, "");
    assert_eq!(rows[0].member, "MyClass.Inner");
}

#[test]
fn flatten_splits_all_splittable_types() {
    let package = make_package(vec![
        ("AssignmentRule", vec!["Case.My_Rule"]),
        ("CustomField", vec!["Account.Active__c"]),
        ("ListView", vec!["Contact.All_Contacts"]),
        ("RecordType", vec!["Metric.Completion"]),
        ("SharingCriteriaRule", vec!["Account.Share_Rule"]),
        ("SharingOwnerRule", vec!["Lead.Owner_Rule"]),
        ("SharingTerritoryRule", vec!["Account.Territory_Rule"]),
    ]);
    let rows = flatten_components(&package, &SortOrder::AsIs, true);

    // All splittable types should have parent populated
    for row in &rows {
        assert!(
            !row.parent.is_empty(),
            "Type {} should have parent",
            row.metadata_type
        );
    }
}

#[test]
fn flatten_splits_parent_for_layout_by_hyphen() {
    let package = make_package(vec![("Layout", vec!["Account-Account Layout"])]);
    let rows = flatten_components(&package, &SortOrder::AsIs, true);
    assert_eq!(rows[0].parent, "Account");
    assert_eq!(rows[0].member, "Account Layout");
}

#[test]
fn flatten_no_dot_in_member_keeps_empty_parent() {
    let package = make_package(vec![("CustomField", vec!["SomeField"])]);
    let rows = flatten_components(&package, &SortOrder::AsIs, true);
    assert_eq!(rows[0].parent, "");
    assert_eq!(rows[0].member, "SomeField");
}

#[test]
fn flatten_layout_without_hyphen_keeps_empty_parent() {
    let package = make_package(vec![("Layout", vec!["PlainLayout"])]);
    let rows = flatten_components(&package, &SortOrder::AsIs, true);
    assert_eq!(rows[0].parent, "");
    assert_eq!(rows[0].member, "PlainLayout");
}

#[test]
fn flatten_empty_member_string_passes_through() {
    let package = make_package(vec![("CustomField", vec![""])]);
    let rows = flatten_components(&package, &SortOrder::AsIs, true);
    assert_eq!(rows.len(), 1);
    assert_eq!(rows[0].parent, "");
    assert_eq!(rows[0].member, "");
}

#[test]
fn flatten_by_type_sorts_parents_within_type() {
    let package = make_package(vec![(
        "CustomField",
        vec!["Zebra.Field__c", "Account.Field__c", "Lead.Field__c"],
    )]);
    let rows = flatten_components(&package, &SortOrder::ByType, true);
    assert_eq!(rows[0].parent, "Account");
    assert_eq!(rows[1].parent, "Lead");
    assert_eq!(rows[2].parent, "Zebra");
}

#[test]
fn flatten_split_keeps_later_separators_in_member() {
    let package = make_package(vec![("Layout", vec!["Account-Account Layout-v2"])]);
    let rows = flatten_components(&package, &SortOrder::AsIs, true);
    assert_eq!(rows[0].parent, "Account");
    assert_eq!(rows[0].member, "Account Layout-v2");
}
