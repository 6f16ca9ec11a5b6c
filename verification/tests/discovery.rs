use adbc_spanner::discovery::{collect_objects, group_all, object_queries, ObjectBatches};
use adbc_spanner::error::Status;
use adbc_spanner::grouping::RowGroups;
use adbc_spanner::metadata::{MetadataBatch, MetadataColumn};
use adbc_spanner::objects::ObjectDepth;

fn strings(values: &[Option<&str>]) -> MetadataColumn {
    MetadataColumn::Strings(values.iter().map(|v| v.map(str::to_string)).collect())
}

/// A result of text columns, from its rows.
fn texts(width: usize, rows: &[&[&str]]) -> MetadataBatch {
    let columns = (0..width)
        .map(|c| {
            let cells: Vec<Option<&str>> = rows
                .iter()
                .map(|r| if r[c] == "NULL" { None } else { Some(r[c]) })
                .collect();
            strings(&cells)
        })
        .collect();
    MetadataBatch { rows: rows.len(), columns }
}

fn column_rows(rows: &[(&str, &str, &str, i64, &str, &str)]) -> MetadataBatch {
    let pick = |f: fn(&(&str, &str, &str, i64, &str, &str)) -> String| {
        MetadataColumn::Strings(rows.iter().map(|r| Some(f(r))).collect())
    };
    MetadataBatch {
        rows: rows.len(),
        columns: vec![
            pick(|r| r.0.to_string()),
            pick(|r| r.1.to_string()),
            pick(|r| r.2.to_string()),
            MetadataColumn::Ints(rows.iter().map(|r| Some(r.3)).collect()),
            pick(|r| r.4.to_string()),
            pick(|r| r.5.to_string()),
        ],
    }
}

fn music() -> ObjectBatches {
    ObjectBatches {
        schemas: texts(1, &[&[""], &["archive"]]),
        tables: Some(texts(
            3,
            &[
                &["", "Singers", "BASE TABLE"],
                &["", "Albums", "BASE TABLE"],
                &["archive", "Singers", "VIEW"],
            ],
        )),
        columns: Some(column_rows(&[
            ("", "Albums", "SingerId", 1, "NO", "INT64"),
            ("", "Albums", "Title", 2, "YES", "STRING(MAX)"),
            ("", "Singers", "SingerId", 1, "NO", "INT64"),
            ("archive", "Singers", "Name", 1, "yes", "STRING(64)"),
        ])),
        constraints: Some(texts(
            4,
            &[
                &["", "Singers", "PK_Singers", "PRIMARY KEY"],
                &["", "Albums", "FK_Albums", "FOREIGN KEY"],
            ],
        )),
        key_columns: Some(texts(
            7,
            &[
                &["", "FK_Albums", "", "Albums", "SingerId", "1", "1"],
                &["", "PK_Singers", "", "Singers", "SingerId", "1", "NULL"],
            ],
        )),
        referential: Some(texts(4, &[&["", "FK_Albums", "", "PK_Singers"]])),
    }
}

#[test]
fn a_depth_asks_only_for_what_it_populates() {
    let none = object_queries(ObjectDepth::Catalogs);
    assert!(none.schemas.is_none());
    let schemas = object_queries(ObjectDepth::Schemas);
    assert_eq!(
        schemas.schemas,
        Some("SELECT SCHEMA_NAME FROM INFORMATION_SCHEMA.SCHEMATA")
    );
    assert!(schemas.tables.is_none());
    let tables = object_queries(ObjectDepth::Tables);
    assert!(tables.tables.is_some() && tables.columns.is_none());
    for depth in [ObjectDepth::All, ObjectDepth::Columns] {
        let all = object_queries(depth);
        assert!(all.columns.is_some());
        assert!(all.constraints.is_some());
        assert!(all.key_columns.is_some());
        assert!(all.referential.is_some());
    }
}

#[test]
fn objects_are_assembled_by_name_in_the_order_of_the_results() {
    let schemas = collect_objects(ObjectDepth::All, &music(), None, None, None, None).unwrap();
    assert_eq!(schemas.len(), 2);
    assert_eq!(schemas[0].name, "");
    let names: Vec<&str> = schemas[0].tables.iter().map(|t| t.name.as_str()).collect();
    assert_eq!(names, vec!["Singers", "Albums"]);
    let albums = &schemas[0].tables[1];
    assert_eq!(albums.table_type, "BASE TABLE");
    let columns: Vec<(&str, i32, bool, &str)> = albums
        .columns
        .iter()
        .map(|c| (c.name.as_str(), c.ordinal, c.nullable, c.spanner_type.as_str()))
        .collect();
    assert_eq!(
        columns,
        vec![("SingerId", 1, false, "INT64"), ("Title", 2, true, "STRING(MAX)")]
    );
    assert_eq!(schemas[1].tables.len(), 1);
    assert!(schemas[1].tables[0].columns[0].nullable);
}

#[test]
fn a_foreign_key_lists_the_columns_it_refers_to() {
    let schemas = collect_objects(ObjectDepth::All, &music(), None, None, None, None).unwrap();
    let singers = &schemas[0].tables[0].constraints;
    assert_eq!(singers.len(), 1);
    assert_eq!(singers[0].name.as_deref(), Some("PK_Singers"));
    assert_eq!(singers[0].columns, vec!["SingerId"]);
    assert!(singers[0].usages.is_empty());
    let albums = &schemas[0].tables[1].constraints;
    assert_eq!(albums[0].constraint_type, "FOREIGN KEY");
    assert_eq!(albums[0].usages.len(), 1);
    assert_eq!(albums[0].usages[0].db_schema, "");
    assert_eq!(albums[0].usages[0].table, "Singers");
    assert_eq!(albums[0].usages[0].column, "SingerId");
}

#[test]
fn filters_leave_the_skeleton() {
    let batches = music();
    let filtered = collect_objects(
        ObjectDepth::All,
        &batches,
        Some("arch%"),
        None,
        None,
        Some("no such column"),
    )
    .unwrap();
    assert_eq!(filtered.len(), 1);
    assert_eq!(filtered[0].name, "archive");
    assert_eq!(filtered[0].tables.len(), 1);
    assert!(filtered[0].tables[0].columns.is_empty());

    let views = vec!["VIEW".to_string()];
    let typed = collect_objects(ObjectDepth::All, &batches, None, None, Some(&views), None);
    let typed = typed.unwrap();
    assert!(typed[0].tables.is_empty());
    assert_eq!(typed[1].tables.len(), 1);

    let named =
        collect_objects(ObjectDepth::All, &batches, None, Some("_lbums"), None, None).unwrap();
    assert_eq!(named[0].tables.len(), 1);
    assert!(named[1].tables.is_empty());
}

#[test]
fn nothing_is_collected_at_catalog_depth() {
    let shapeless = ObjectBatches {
        schemas: MetadataBatch { rows: 0, columns: Vec::new() },
        tables: None,
        columns: None,
        constraints: None,
        key_columns: None,
        referential: None,
    };
    let none = collect_objects(ObjectDepth::Catalogs, &shapeless, None, None, None, None).unwrap();
    assert!(none.is_empty());
    match collect_objects(ObjectDepth::Schemas, &shapeless, None, None, None, None) {
        Err(error) => {
            assert_eq!(error.status, Status::Internal);
            assert_eq!(
                error.message,
                "INFORMATION_SCHEMA batch has 0 column(s); column 0 is out of range"
            );
        }
        Ok(_) => panic!("a result without columns is refused"),
    }
}

#[test]
fn an_ordinal_that_is_no_integer_is_refused() {
    let mut batches = music();
    batches.columns.as_mut().unwrap().columns[3] = MetadataColumn::Other;
    match collect_objects(ObjectDepth::All, &batches, None, None, None, None) {
        Err(error) => assert_eq!(error.message, "ORDINAL_POSITION is not an integer"),
        Ok(_) => panic!("an ordinal has to be an integer"),
    }
}

#[test]
fn rows_are_grouped_by_both_names() {
    let mut groups = RowGroups::new();
    for (row, (first, second)) in [("a", "b"), ("ab", ""), ("a", "b"), ("", "ab")]
        .into_iter()
        .enumerate()
    {
        groups.add_row(first, second, row);
    }
    assert_eq!(groups.rows_of("a", "b"), vec![0, 2]);
    assert_eq!(groups.rows_of("ab", ""), vec![1]);
    assert_eq!(groups.rows_of("", "ab"), vec![3]);
    assert!(groups.rows_of("b", "a").is_empty());
}

#[test]
fn constraints_are_collected_in_the_order_of_the_result() {
    let batches = music();
    let grouped = group_all(&batches);
    let albums = grouped.collect_constraints("", "Albums");
    assert_eq!(albums.len(), 1);
    assert_eq!(albums[0].name.as_deref(), Some("FK_Albums"));
    assert_eq!(albums[0].columns, vec!["SingerId"]);
    assert_eq!(albums[0].usages[0].table, "Singers");
    assert!(grouped.collect_constraints("archive", "Albums").is_empty());
    assert_eq!(grouped.foreign_key_usages("", "FK_Albums").len(), 1);
    assert!(grouped.foreign_key_usages("", "PK_Singers").is_empty());
    let columns = grouped.collect_columns("", "Albums", Some("T%"));
    assert_eq!(columns.len(), 1);
    assert_eq!(columns[0].name, "Title");
}

#[test]
fn nothing_is_collected_below_the_depth() {
    let shallow = ObjectBatches {
        columns: None,
        constraints: None,
        key_columns: None,
        referential: None,
        ..music()
    };
    let schemas = collect_objects(ObjectDepth::Tables, &shallow, None, None, None, None).unwrap();
    assert_eq!(schemas[0].tables.len(), 2);
    assert!(schemas[0].tables.iter().all(|t| t.columns.is_empty() && t.constraints.is_empty()));

    let schemas_only = ObjectBatches { tables: None, ..shallow };
    let schemas = collect_objects(ObjectDepth::Schemas, &schemas_only, None, None, None, None);
    assert!(schemas.unwrap().iter().all(|s| s.tables.is_empty()));
}
