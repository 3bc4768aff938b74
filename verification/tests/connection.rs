use databricks_connector::config::DatabricksConfig;
use databricks_connector::jdbc::{jdbc_param, parse_jdbc_params};
use databricks_connector::json::Json;
use databricks_connector::secrets::{collect_jdbc_secrets, collect_url_auth, push_sensitive};
use databricks_connector::settings::{option_string, request_containers};
use databricks_connector::url::{
    base_url_from_connection_string, normalize_base_url, warehouse_id_from_http_path,
};

fn parse(text: &str) -> Json {
    Json::parse(text).unwrap()
}

fn config(text: &str) -> Result<DatabricksConfig, String> {
    DatabricksConfig::from_request(&parse(text))
}

#[test]
fn parses_jdbc_connection_string() {
    let request = Json::Object(vec![(
        "url".to_string(),
        Json::Text(
            "jdbc:databricks://dbc.example.cloud.databricks.com:443/default;httpPath=/sql/1.0/warehouses/abc123;PWD=secret"
                .to_string(),
        ),
    )]);
    let config = DatabricksConfig::from_request(&request).unwrap();
    assert_eq!(config.base_url, "https://dbc.example.cloud.databricks.com");
    assert_eq!(config.warehouse_id, "abc123");
    assert_eq!(config.token, "secret");
}

#[test]
fn extracts_warehouse_id_from_http_path() {
    assert_eq!(
        warehouse_id_from_http_path("/sql/1.0/warehouses/abc123"),
        Some("abc123".to_string())
    );
}

#[test]
fn warehouse_id_ends_at_the_first_stop() {
    let id = |path: &str| warehouse_id_from_http_path(path);
    assert_eq!(id("/sql/1.0/warehouses/ abc /x"), Some("abc".to_string()));
    assert_eq!(id("/warehouses/a;b"), Some("a".to_string()));
    assert_eq!(id("/warehouses/a?o=1"), Some("a".to_string()));
    assert_eq!(id("/warehouses/a/warehouses/b"), Some("a".to_string()));
    assert_eq!(id("/warehouses//warehouses/b"), None);
    assert_eq!(id("/warehouses/"), None);
    assert_eq!(id("/endpoints/abc"), None);
}

#[test]
fn base_urls_are_normalized() {
    assert_eq!(normalize_base_url(" host.example/ "), "https://host.example");
    assert_eq!(normalize_base_url("host/default//"), "https://host");
    assert_eq!(normalize_base_url("host/default/default"), "https://host");
    assert_eq!(normalize_base_url("host//default"), "https://host/");
    assert_eq!(normalize_base_url("http://host"), "http://host");
    assert_eq!(normalize_base_url("https://host/"), "https://host");
    assert_eq!(normalize_base_url("\u{3000}host\u{a0}"), "https://host");
    assert_eq!(normalize_base_url(""), "https://");
}

#[test]
fn connection_strings_name_their_host() {
    let url = |s: &str| base_url_from_connection_string(s);
    assert_eq!(
        url("jdbc:databricks://h.example:443:443/default;a=b"),
        Some("https://h.example".to_string())
    );
    assert_eq!(url("databricks://h;x=/y"), Some("https://h".to_string()));
    assert_eq!(url("databricks://h:8443/x"), Some("https://h:8443".to_string()));
    assert_eq!(url("databricks://:443/default"), None);
    assert_eq!(url("databricks://"), None);
    assert_eq!(url("https://h"), None);
}

#[test]
fn jdbc_parameters_are_read() {
    let params = parse_jdbc_params("a=1;B = two ;c;d= ;b=three;E=x=y");
    assert_eq!(params.get("a"), None);
    assert_eq!(params.get("b").map(|s| s.as_str()), Some("three"));
    assert_eq!(params.get("B"), None);
    assert_eq!(params.get("c"), None);
    assert_eq!(params.get("d"), None);
    assert_eq!(params.get("e").map(|s| s.as_str()), Some("x=y"));
    assert_eq!(jdbc_param(&params, &["zz", "B"]), Some("three".to_string()));
    assert_eq!(jdbc_param(&params, &["E", "b"]), Some("x=y".to_string()));
    assert_eq!(jdbc_param(&params, &["zz"]), None);
}

#[test]
fn containers_are_listed_in_order() {
    let request = parse(
        r#"{"profile":{"options":{"n":6},"auth":{"n":7},"secrets":{"n":8},"n":2},
            "options":{"n":3},"auth":{"n":4},"secrets":{"n":5},"n":1}"#,
    );
    let seen: Vec<String> = request_containers(&request)
        .iter()
        .map(|c| c.get("n").unwrap().to_text())
        .collect();
    assert_eq!(seen, ["1", "2", "3", "4", "5", "6", "7", "8"]);
    assert_eq!(request_containers(&parse("[1]")).len(), 1);
}

#[test]
fn settings_are_found_in_order() {
    let request = parse(
        r#"{"a":"  ","b":[1],"c":null,"n":12,"f":1.5,"t":true,
            "profile":{"a":" x ","secrets":{"s":"deep"}},"options":{"a":"y"}}"#,
    );
    let get = |names: &[&str]| option_string(&request, names);
    assert_eq!(get(&["a"]), Some("x".to_string()));
    assert_eq!(get(&["b"]), None);
    assert_eq!(get(&["c"]), None);
    assert_eq!(get(&["n"]), Some("12".to_string()));
    assert_eq!(get(&["f"]), Some("1.5".to_string()));
    assert_eq!(get(&["t"]), Some("true".to_string()));
    assert_eq!(get(&["s"]), Some("deep".to_string()));
    assert_eq!(get(&["a", "n"]), Some("12".to_string()));
    assert_eq!(get(&["zz"]), None);
}

#[test]
fn settings_win_over_parameters() {
    let c = config(
        r#"{"url":"jdbc:databricks://h1/default;httpPath=/warehouses/w1;PWD=p1;ConnCatalog=c1;schema=s1",
            "host":"h2","httpPath":"/warehouses/w2","token":"t2","catalog":"c2","database":"s2"}"#,
    )
    .unwrap();
    assert_eq!(c.base_url, "https://h1");
    assert_eq!(c.warehouse_id, "w2");
    assert_eq!(c.token, "t2");
    assert_eq!(c.catalog, Some("c2".to_string()));
    assert_eq!(c.schema, Some("s2".to_string()));
    assert_eq!(c.redaction_values, ["t2", "p1"]);
}

#[test]
fn parameters_fill_what_is_not_set() {
    let c = config(
        r#"{"dsn":"databricks://h1;http_path=/warehouses/w1;Token=p1;ConnCatalog=c1;DATABASE=s1"}"#,
    )
    .unwrap();
    assert_eq!(c.base_url, "https://h1");
    assert_eq!(c.warehouse_id, "w1");
    assert_eq!(c.token, "p1");
    assert_eq!(c.catalog, Some("c1".to_string()));
    assert_eq!(c.schema, Some("s1".to_string()));
    assert_eq!(c.redaction_values, ["p1"]);
}

#[test]
fn missing_settings_are_reported() {
    assert_eq!(
        config("{}").unwrap_err(),
        "Databricks connect requires host, workspaceUrl, or url."
    );
    assert_eq!(
        config(r#"{"host":"h"}"#).unwrap_err(),
        "Databricks connect requires warehouseId or an httpPath containing /warehouses/<id>."
    );
    assert_eq!(
        config(r#"{"host":"h","warehouseId":"w"}"#).unwrap_err(),
        "Databricks connect requires a bearer token."
    );
    let c = config(r#"{"workspaceUrl":"h","warehouse":7,"auth":{"pat":"t"}}"#).unwrap();
    assert_eq!(c.warehouse_id, "7");
    assert_eq!(c.catalog, None);
    assert_eq!(c.schema, None);
}

#[test]
fn secrets_are_collected_once() {
    let mut values: Vec<String> = Vec::new();
    push_sensitive(&mut values, Some(" a "));
    push_sensitive(&mut values, Some("a"));
    push_sensitive(&mut values, Some("  "));
    push_sensitive(&mut values, None);
    assert_eq!(values, ["a"]);
    collect_url_auth("https://user:pw@host/x", &mut values);
    assert_eq!(values, ["a", "user", "pw"]);
    collect_url_auth("https://host/x:y", &mut values);
    collect_url_auth("host:1", &mut values);
    assert_eq!(values, ["a", "user", "pw"]);
    collect_url_auth("https://host:8443", &mut values);
    assert_eq!(values, ["a", "user", "pw", "host", "8443"]);
    collect_jdbc_secrets("x;Token=t;PWD=p;Password=q;uid=u", &mut values);
    assert_eq!(values, ["a", "user", "pw", "host", "8443", "p", "q", "t"]);
}

#[test]
fn messages_are_redacted() {
    let c = config(
        r#"{"host":"https://h.example/","warehouseId":"w","token":"tok"}"#,
    )
    .unwrap();
    assert_eq!(
        c.redact("GET https://h.example/api with tok and toktok failed"),
        "GET <databricks-url>/api with **** and ******** failed"
    );
    assert_eq!(c.redact("nothing to hide"), "nothing to hide");
}

#[test]
fn redaction_skips_empty_secrets() {
    let c = DatabricksConfig {
        base_url: "aa".to_string(),
        warehouse_id: "w".to_string(),
        token: "t".to_string(),
        catalog: None,
        schema: None,
        redaction_values: vec!["".to_string(), "x".to_string(), "b".to_string()],
    };
    assert_eq!(c.redact("aaax"), "<data****ricks-url>a****");
    assert_eq!(c.clone(), c);
}

#[test]
fn redaction_hides_the_token() {
    let c = config(r#"{"host":"h","warehouseId":"w","token":"s3cret"}"#).unwrap();
    assert!(c.redaction_values.contains(&c.token));
    for message in ["s3cret", "s3s3cretcret", "a s3cret, b s3cret"] {
        assert!(!c.redact(message).contains("s3cret"));
    }
    // A token that can share stars with the mask may stay visible.
    let starred = config(r#"{"host":"h","warehouseId":"w","token":"*x"}"#).unwrap();
    assert!(starred.redact("*xx").contains("*x"));
}
