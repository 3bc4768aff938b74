use databricks_connector::json::Json;
use databricks_connector::metadata::{field, metadata_from_rows};
use databricks_connector::ordered::OrderedMap;
use databricks_connector::queries::{
    metadata_sql, metadata_step, version_from_rows, MetadataStep, CATALOG_CAP, VERSION_CAP,
    VERSION_SQL,
};
use databricks_connector::rows::QueryOutput;

fn rows(text: &str) -> Vec<Vec<Json>> {
    Json::parse(text)
        .unwrap()
        .as_array()
        .unwrap()
        .iter()
        .map(|r| r.as_array().unwrap().clone())
        .collect()
}

fn columns(names: &[&str]) -> Vec<String> {
    names.iter().map(|n| n.to_string()).collect()
}

#[test]
fn fields_are_found_by_name() {
    let names = columns(&["A", "b", "a"]);
    let row = rows(r#"[["x",[1,true]]]"#).remove(0);
    assert_eq!(field(&names, &row, "a"), Some("x".to_string()));
    assert_eq!(field(&names, &row, "B"), Some("[1,true]".to_string()));
    assert_eq!(field(&names, &row, "c"), None);
    let short = rows(r#"[[null]]"#).remove(0);
    assert_eq!(field(&names, &short, "a"), None);
    assert_eq!(field(&names, &short, "b"), None);
}

#[test]
fn tables_are_grouped_and_ordered() {
    let names = columns(&[
        "table_catalog", "TABLE_SCHEMA", "table_name", "column_name", "data_type",
        "ordinal_position", "is_nullable",
    ]);
    let data = rows(
        r#"[["z","s","t2","c1","int","7","YES"],
            ["z","s","t1","c1","int",3,"no"],
            [null,null,"t","c","string",null,null],
            ["z","s","t2","c2","text","x","TRUE"],
            ["z","s","","c3","text","1","NO"],
            ["z","s",null,"c3","text","1","NO"]]"#,
    );
    let expected = concat_lines(&[
        r#"{"schemas":["#,
        r#"{"name":"hive_metastore.default","objects":[{"columns":[{"dataType":"string","name":"c","nullable":true,"ordinal":1}],"foreignKeys":[],"indexes":[],"kind":"table","name":"t","primaryKey":[],"schema":"hive_metastore.default"}]},"#,
        r#"{"name":"z.s","objects":["#,
        r#"{"columns":[{"dataType":"int","name":"c1","nullable":false,"ordinal":3}],"foreignKeys":[],"indexes":[],"kind":"table","name":"t1","primaryKey":[],"schema":"z.s"},"#,
        r#"{"columns":[{"dataType":"int","name":"c1","nullable":true,"ordinal":7},{"dataType":"text","name":"c2","nullable":true,"ordinal":2}],"foreignKeys":[],"indexes":[],"kind":"table","name":"t2","primaryKey":[],"schema":"z.s"}"#,
        r#"]}]}"#,
    ]);
    assert_eq!(metadata_from_rows(&names, &data).to_text(), expected);
    assert_eq!(metadata_from_rows(&names, &Vec::new()).to_text(), r#"{"schemas":[]}"#);
}

fn concat_lines(lines: &[&str]) -> String {
    lines.concat()
}

#[test]
fn ordered_maps_keep_their_order() {
    let mut map: OrderedMap<i32> = OrderedMap::new();
    for (key, value) in [("b", 1), ("a", 2), ("c", 3), ("b", 4)] {
        map.insert(key.to_string(), value);
    }
    assert_eq!(map.remove("c"), Some(3));
    assert_eq!(map.remove("c"), None);
    map.insert("aa".to_string(), 5);
    assert_eq!(
        map.into_entries(),
        [("a".to_string(), 2), ("aa".to_string(), 5), ("b".to_string(), 4)]
    );
}

#[test]
fn versions_are_named() {
    assert_eq!(version_from_rows(&rows(r#"[["2024.1","x"]]"#)), "Databricks SQL 2024.1");
    assert_eq!(version_from_rows(&rows(r#"[[5]]"#)), "Databricks SQL");
    assert_eq!(version_from_rows(&rows(r#"[[]]"#)), "Databricks SQL");
    assert_eq!(version_from_rows(&Vec::new()), "Databricks SQL");
    assert_eq!((VERSION_SQL, VERSION_CAP), ("select version()", 1));
}

#[test]
fn both_catalogs_are_tried() {
    assert_eq!(CATALOG_CAP, 10_000);
    assert_eq!(
        metadata_sql(0),
        Some(
            "select table_catalog, table_schema, table_name, column_name, data_type, ordinal_position, is_nullable \
             from information_schema.columns \
             where table_schema <> 'information_schema' \
             order by table_catalog, table_schema, table_name, ordinal_position \
             limit 10000"
        )
    );
    assert_eq!(
        metadata_sql(1),
        Some(
            "select table_catalog, table_schema, table_name, column_name, data_type, ordinal_position, is_nullable \
             from system.information_schema.columns \
             where table_schema <> 'information_schema' \
             order by table_catalog, table_schema, table_name, ordinal_position \
             limit 10000"
        )
    );
    assert_eq!(metadata_sql(2), None);
    assert_eq!(metadata_step(0, Err("a".to_string())), MetadataStep::Try(1));
    assert_eq!(
        metadata_step(1, Err("b".to_string())),
        MetadataStep::Fail("b".to_string())
    );
    let output = QueryOutput { columns: Vec::new(), rows: Vec::new(), truncated: false };
    match metadata_step(0, Ok(output)) {
        MetadataStep::Done(metadata) => assert_eq!(metadata.to_text(), r#"{"schemas":[]}"#),
        other => panic!("{:?}", other),
    }
}
