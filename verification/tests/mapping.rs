use query_graph_core::{MappingIssueCode, RelationalMapping, SourceMapping, TableName};

fn source(table: TableName, columns: &[(&str, &str)]) -> SourceMapping {
    SourceMapping {
        table,
        columns: columns
            .iter()
            .map(|(field, column)| (field.to_string(), column.to_string()))
            .collect(),
    }
}

fn qualified(schema: &str, name: &str) -> TableName {
    TableName::Qualified {
        catalog: None,
        schema: Some(schema.to_owned()),
        name: name.to_owned(),
    }
}

fn mapping(sources: Vec<(&str, SourceMapping)>) -> RelationalMapping {
    RelationalMapping {
        sources: sources
            .into_iter()
            .map(|(key, mapping)| (key.to_owned(), mapping))
            .collect(),
    }
}

fn find<'a>(mapping: &'a RelationalMapping, key: &str) -> &'a SourceMapping {
    &mapping
        .sources
        .iter()
        .find(|(source, _)| source == key)
        .unwrap()
        .1
}

fn column<'a>(mapping: &'a SourceMapping, field: &str) -> &'a str {
    mapping
        .columns
        .iter()
        .find(|(name, _)| name == field)
        .unwrap()
        .1
        .as_str()
}

#[test]
fn merges_compatible_source_and_column_fragments() {
    let merged = RelationalMapping::merge(vec![
        mapping(vec![(
            "users",
            source(qualified("dbo", "Users"), &[("organisationId", "organisation_id")]),
        )]),
        mapping(vec![
            (
                "users",
                source(
                    qualified("dbo", "Users"),
                    &[
                        ("organisationId", "organisation_id"),
                        ("displayName", "display_name"),
                    ],
                ),
            ),
            ("profiles", source(TableName::Name("Profiles".into()), &[])),
        ]),
    ])
    .expect("compatible mappings should merge");

    assert_eq!(merged.sources.len(), 2);
    let users = find(&merged, "users");
    assert_eq!(
        users.table,
        TableName::Qualified {
            catalog: None,
            schema: Some("dbo".to_owned()),
            name: "Users".to_owned(),
        }
    );
    assert_eq!(column(users, "organisationId"), "organisation_id");
    assert_eq!(column(users, "displayName"), "display_name");
}

#[test]
fn treats_unqualified_table_forms_as_equivalent() {
    let merged = RelationalMapping::merge(vec![
        mapping(vec![("users", source(TableName::Name("Users".into()), &[]))]),
        mapping(vec![(
            "users",
            source(
                TableName::Qualified {
                    catalog: None,
                    schema: None,
                    name: "Users".into(),
                },
                &[],
            ),
        )]),
    ])
    .expect("equivalent unqualified tables should merge");

    assert_eq!(
        find(&merged, "users").table,
        TableName::Name("Users".to_owned())
    );
}

#[test]
fn rejects_conflicting_source_tables() {
    let issues = RelationalMapping::merge(vec![
        mapping(vec![("users", source(TableName::Name("Users".into()), &[]))]),
        mapping(vec![(
            "users",
            source(TableName::Name("LegacyUsers".into()), &[]),
        )]),
    ])
    .expect_err("conflicting tables should be rejected");

    assert_eq!(issues.as_slice().len(), 1);
    assert_eq!(
        issues.as_slice()[0].code,
        MappingIssueCode::ConflictingSourceTable
    );
    assert_eq!(
        issues.as_slice()[0].location,
        "mappings[1].sources.users.table"
    );
}

#[test]
fn rejects_conflicting_column_names() {
    let issues = RelationalMapping::merge(vec![
        mapping(vec![(
            "users",
            source(TableName::Name("Users".into()), &[("id", "user_id")]),
        )]),
        mapping(vec![(
            "users",
            source(TableName::Name("Users".into()), &[("id", "legacy_user_id")]),
        )]),
    ])
    .expect_err("conflicting columns should be rejected");

    assert_eq!(issues.as_slice().len(), 1);
    assert_eq!(
        issues.as_slice()[0].code,
        MappingIssueCode::ConflictingColumn
    );
    assert_eq!(
        issues.as_slice()[0].location,
        "mappings[1].sources.users.columns.id"
    );
}
