use adbc_core::schemas::GET_OBJECTS_SCHEMA;
use adbc_spanner::objects::{Column, Constraint, DbSchema, ObjectDepth, Table, Usage};
use arrow_array::{Array, ArrayRef, ListArray, RecordBatch, StringArray, StructArray};

fn build(
    depth: ObjectDepth,
    schemas: Vec<DbSchema>,
) -> Result<RecordBatch, adbc_spanner::error::Error> {
    let data = adbc_spanner::objects::build(depth, &schemas)?;
    Ok(RecordBatch::from(StructArray::from(data)))
}

fn sample() -> Vec<DbSchema> {
    vec![DbSchema {
        name: "".to_string(),
        tables: vec![Table {
            name: "Users".to_string(),
            table_type: "BASE TABLE".to_string(),
            columns: vec![
                Column {
                    name: "Id".into(),
                    ordinal: 1,
                    nullable: false,
                    spanner_type: "INT64".into(),
                },
                Column {
                    name: "Name".into(),
                    ordinal: 2,
                    nullable: true,
                    spanner_type: "STRING(MAX)".into(),
                },
            ],
            constraints: vec![
                Constraint {
                    name: Some("PK_Users".into()),
                    constraint_type: "PRIMARY KEY".into(),
                    columns: vec!["Id".into()],
                    usages: Vec::new(),
                },
                Constraint {
                    name: Some("FK_Users_Org".into()),
                    constraint_type: "FOREIGN KEY".into(),
                    columns: vec!["OrgId".into()],
                    usages: vec![Usage {
                        db_schema: String::new(),
                        table: "Orgs".into(),
                        column: "Id".into(),
                    }],
                },
            ],
        }],
    }]
}

#[test]
fn build_full_depth_matches_schema() {
    let batch = build(ObjectDepth::All, sample()).unwrap();
    assert_eq!(batch.schema(), GET_OBJECTS_SCHEMA.clone());
    assert_eq!(batch.num_rows(), 1);
    let schemas = batch
        .column(1)
        .as_any()
        .downcast_ref::<ListArray>()
        .unwrap();
    assert!(schemas.is_valid(0));
    assert_eq!(schemas.value(0).len(), 1);
}

#[test]
fn columns_carry_xdbc_type_name_and_nullability() {
    let batch = build(ObjectDepth::All, sample()).unwrap();
    let list = |a: &dyn Array| a.as_any().downcast_ref::<ListArray>().unwrap().value(0);
    let strukt = |a: ArrayRef| a.as_any().downcast_ref::<StructArray>().unwrap().clone();
    let child = |s: &StructArray, name: &str| s.column_by_name(name).unwrap().clone();

    let schemas = strukt(list(batch.column(1).as_ref()));
    let tables = strukt(list(child(&schemas, "db_schema_tables").as_ref()));
    let columns = strukt(list(child(&tables, "table_columns").as_ref()));
    let string_child = |name: &str| {
        child(&columns, name)
            .as_any()
            .downcast_ref::<StringArray>()
            .unwrap()
            .clone()
    };

    let spanner_type = string_child("xdbc_type_name");
    assert_eq!(spanner_type.value(0), "INT64");
    assert_eq!(spanner_type.value(1), "STRING(MAX)");
    let is_nullable = string_child("xdbc_is_nullable");
    assert_eq!(is_nullable.value(0), "NO");
    assert_eq!(is_nullable.value(1), "YES");
}

fn schemas_list(batch: &RecordBatch) -> ListArray {
    batch
        .column(1)
        .as_any()
        .downcast_ref::<ListArray>()
        .unwrap()
        .clone()
}

fn tables_list(schemas: &ListArray) -> ListArray {
    let schemas = schemas.value(0);
    let schemas = schemas.as_any().downcast_ref::<StructArray>().unwrap();
    schemas
        .column_by_name("db_schema_tables")
        .unwrap()
        .as_any()
        .downcast_ref::<ListArray>()
        .unwrap()
        .clone()
}

fn table_child_list(schemas: &ListArray, name: &str) -> ListArray {
    let tables = tables_list(schemas).value(0);
    let tables = tables.as_any().downcast_ref::<StructArray>().unwrap();
    tables
        .column_by_name(name)
        .unwrap()
        .as_any()
        .downcast_ref::<ListArray>()
        .unwrap()
        .clone()
}

#[test]
fn build_catalogs_depth_leaves_schemas_null() {
    let batch = build(ObjectDepth::Catalogs, sample()).unwrap();
    let schemas = batch
        .column(1)
        .as_any()
        .downcast_ref::<ListArray>()
        .unwrap();
    assert!(schemas.is_null(0));
}

#[test]
fn build_catalogs_depth_ignores_collected_schemas() {
    let from_empty = build(ObjectDepth::Catalogs, Vec::new()).unwrap();
    let from_sample = build(ObjectDepth::Catalogs, sample()).unwrap();
    assert_eq!(from_empty, from_sample);
    assert_eq!(from_empty.num_rows(), 1, "single unnamed catalog");
    let name = from_empty
        .column(0)
        .as_any()
        .downcast_ref::<StringArray>()
        .unwrap();
    assert_eq!(name.value(0), "");
}

#[test]
fn schema_filter_matching_nothing_yields_empty_schemas_list_not_null() {
    for depth in [
        ObjectDepth::Schemas,
        ObjectDepth::Tables,
        ObjectDepth::Columns,
        ObjectDepth::All,
    ] {
        let batch = build(depth, Vec::new()).unwrap();
        assert_eq!(batch.num_rows(), 1, "single catalog at {depth:?}");
        let schemas = schemas_list(&batch);
        assert!(
            schemas.is_valid(0),
            "catalog_db_schemas must not be NULL at {depth:?}"
        );
        assert_eq!(
            schemas.value(0).len(),
            0,
            "catalog_db_schemas must be empty at {depth:?}"
        );
    }
}

#[test]
fn table_filter_matching_nothing_keeps_schema_skeleton_with_empty_table_lists() {
    for depth in [ObjectDepth::Tables, ObjectDepth::Columns, ObjectDepth::All] {
        let schemas = vec![DbSchema {
            name: "".to_string(),
            tables: Vec::new(),
        }];
        let batch = build(depth, schemas).unwrap();
        let schemas = schemas_list(&batch);
        assert!(schemas.is_valid(0));
        assert_eq!(
            schemas.value(0).len(),
            1,
            "schema skeleton kept at {depth:?}"
        );
        let tables = tables_list(&schemas);
        assert!(
            tables.is_valid(0),
            "db_schema_tables must not be NULL at {depth:?}"
        );
        assert_eq!(
            tables.value(0).len(),
            0,
            "db_schema_tables must be empty at {depth:?}"
        );
    }
}

#[test]
fn column_filter_matching_nothing_yields_empty_column_and_constraint_lists() {
    for depth in [ObjectDepth::Columns, ObjectDepth::All] {
        let schemas = vec![DbSchema {
            name: "".to_string(),
            tables: vec![Table {
                name: "Users".to_string(),
                table_type: "BASE TABLE".to_string(),
                columns: Vec::new(),
                constraints: Vec::new(),
            }],
        }];
        let batch = build(depth, schemas).unwrap();
        let schemas = schemas_list(&batch);
        for name in ["table_columns", "table_constraints"] {
            let list = table_child_list(&schemas, name);
            assert!(list.is_valid(0), "{name} must not be NULL at {depth:?}");
            assert_eq!(list.value(0).len(), 0, "{name} must be empty at {depth:?}");
        }
    }
}

#[test]
fn schemas_depth_leaves_tables_null() {
    let batch = build(ObjectDepth::Schemas, sample()).unwrap();
    let schemas = schemas_list(&batch);
    assert!(schemas.is_valid(0));
    let tables = tables_list(&schemas);
    assert!(
        tables.is_null(0),
        "db_schema_tables must be NULL at Schemas depth"
    );
}

#[test]
fn tables_depth_leaves_columns_and_constraints_null() {
    let batch = build(ObjectDepth::Tables, sample()).unwrap();
    let schemas = schemas_list(&batch);
    for name in ["table_columns", "table_constraints"] {
        let list = table_child_list(&schemas, name);
        assert!(list.is_null(0), "{name} must be NULL at Tables depth");
    }
}

#[test]
fn constraint_column_usage_is_null_for_non_foreign_keys() {
    let batch = build(ObjectDepth::All, sample()).unwrap();
    let list = |a: &dyn Array| a.as_any().downcast_ref::<ListArray>().unwrap().value(0);
    let strukt = |a: ArrayRef| a.as_any().downcast_ref::<StructArray>().unwrap().clone();
    let child = |s: &StructArray, name: &str| s.column_by_name(name).unwrap().clone();

    let schemas = strukt(list(batch.column(1).as_ref()));
    let tables = strukt(list(child(&schemas, "db_schema_tables").as_ref()));
    let constraints_list = child(&tables, "table_constraints");
    let constraints = constraints_list
        .as_any()
        .downcast_ref::<ListArray>()
        .unwrap()
        .value(0);
    let constraints = constraints.as_any().downcast_ref::<StructArray>().unwrap();

    let ctype = constraints
        .column_by_name("constraint_type")
        .unwrap()
        .as_any()
        .downcast_ref::<StringArray>()
        .unwrap();
    let usage = constraints
        .column_by_name("constraint_column_usage")
        .unwrap()
        .as_any()
        .downcast_ref::<ListArray>()
        .unwrap();

    assert_eq!(ctype.value(0), "PRIMARY KEY");
    assert!(usage.is_null(0), "PRIMARY KEY usage must be NULL, not []");
    assert_eq!(ctype.value(1), "FOREIGN KEY");
    assert!(usage.is_valid(1));
    assert_eq!(usage.value(1).len(), 1);
}