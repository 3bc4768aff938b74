use databricks_connector::config::DatabricksConfig;
use databricks_connector::driver::{
    begin_connect, call_json, connect_failed, connected_version, describe, finish_metadata, finish_query,
    query_statement, state_poisoned, ConnectorInfo, Connections, Dispatch, Response,
};
use databricks_connector::json::Json;
use databricks_connector::rows::QueryOutput;

fn parse(text: &str) -> Json {
    Json::parse(text).unwrap()
}

fn info() -> ConnectorInfo {
    ConnectorInfo {
        engine: "databricks".to_string(),
        abi_version: Json::from_i64(1),
        driver_linked: true,
        manifest_json: r#"{"id": "m"}"#.to_string(),
        config_json: "not json".to_string(),
    }
}

fn config() -> DatabricksConfig {
    DatabricksConfig::from_request(&parse(r#"{"host":"h","warehouseId":"w","token":"tok"}"#))
        .unwrap()
}

fn written(response: Response) -> String {
    match response {
        Response::Fields(fields) => Json::Object(fields).to_text(),
        Response::Error { code, message } => format!("{}|{}", code, message),
        Response::Raw(text) => text,
    }
}

fn replied(method: &str) -> String {
    match call_json(&info(), method, None) {
        Dispatch::Reply(response) => written(response),
        other => panic!("{:?}", other),
    }
}

#[test]
fn calls_without_a_request_are_answered() {
    let health = r#"{"abiVersion":1,"driverLinked":true,"engine":"databricks"}"#;
    assert_eq!(replied("health"), health);
    assert_eq!(replied("ping"), health);
    let described =
        r#"{"abiVersion":1,"config":null,"driverLinked":true,"engine":"databricks","manifest":{"id":"m"}}"#;
    assert_eq!(replied("describe"), described);
    assert_eq!(replied("capabilities"), described);
    assert_eq!(replied("manifest"), r#"{"id": "m"}"#);
    assert_eq!(replied("config"), "not json");
    assert_eq!(
        replied("Ping"),
        "connector.unknownMethod|unknown connector method: Ping"
    );
}

#[test]
fn descriptions_hold_what_was_read() {
    let response = describe(&info(), Err("x".to_string()), Ok(Json::Bool(false)));
    assert_eq!(
        written(response),
        r#"{"abiVersion":1,"config":false,"driverLinked":true,"engine":"databricks","manifest":null}"#
    );
}

#[test]
fn calls_with_a_request_are_dispatched() {
    let request = || Some(parse(r#"{"a":1}"#));
    let given = parse(r#"{"a":1}"#);
    assert_eq!(call_json(&info(), "connect", request()), Dispatch::Connect(given.clone()));
    assert_eq!(call_json(&info(), "query", request()), Dispatch::Query(given.clone()));
    assert_eq!(call_json(&info(), "metadata", request()), Dispatch::Metadata(given.clone()));
    assert_eq!(call_json(&info(), "close", request()), Dispatch::Close(given.clone()));
}

#[test]
fn connections_are_opened_and_closed() {
    let mut open = Connections::new();
    assert_eq!(
        written(open.connection("id").unwrap_err()),
        "connector.connectionNotFound|no open connection: id"
    );
    let response = open.connect(&info(), "id".to_string(), config(), "v1".to_string());
    assert_eq!(
        written(response),
        r#"{"connectionId":"id","driverLinked":true,"endpoint":"https://h","engine":"databricks","serverVersion":"v1","warehouseId":"w"}"#
    );
    assert_eq!(open.connection("id").unwrap(), config());
    assert!(open.connection("other").is_err());
    assert_eq!(
        written(open.close("id".to_string())),
        r#"{"closed":true,"connectionId":"id"}"#
    );
    assert_eq!(
        written(open.close("id".to_string())),
        r#"{"closed":false,"connectionId":"id"}"#
    );
    assert!(open.connection("id").is_err());
}

#[test]
fn reopening_replaces_a_connection() {
    let mut open = Connections::new();
    open.connect(&info(), "id".to_string(), config(), "v".to_string());
    let mut other = config();
    other.warehouse_id = "w2".to_string();
    open.connect(&info(), "id".to_string(), other, "v".to_string());
    assert_eq!(open.connection("id").unwrap().warehouse_id, "w2");
}

#[test]
fn invalid_connect_requests_are_answered() {
    assert_eq!(
        written(begin_connect(&parse("{}")).unwrap_err()),
        "connector.invalidRequest|Databricks connect requires host, workspaceUrl, or url."
    );
    let request = parse(r#"{"host":"h","warehouseId":"w","token":"tok"}"#);
    assert_eq!(begin_connect(&request).unwrap(), config());
}

#[test]
fn new_connections_name_their_server() {
    let output = QueryOutput {
        columns: vec!["version()".to_string()],
        rows: vec![vec![Json::Text("15.4".to_string())]],
        truncated: false,
    };
    assert_eq!(connected_version(&config(), Ok(output)).unwrap(), "Databricks SQL 15.4");
    assert_eq!(
        written(connected_version(&config(), Err("bad tok".to_string())).unwrap_err()),
        "connector.connectFailed|bad ****"
    );
}

#[test]
fn failures_hide_the_token() {
    assert_eq!(
        written(connect_failed(&config(), "https://h said tok")),
        "connector.connectFailed|<databricks-url> said ****"
    );
    assert_eq!(
        written(finish_query("id".to_string(), &config(), Err("tok".to_string()))),
        "connector.queryFailed|****"
    );
    assert_eq!(
        written(finish_metadata("id".to_string(), &config(), Err("x tok".to_string()))),
        "connector.metadataFailed|x ****"
    );
    assert_eq!(
        written(state_poisoned()),
        "connector.statePoisoned|Connector connection state is poisoned."
    );
}

#[test]
fn queries_are_answered() {
    let output = QueryOutput {
        columns: vec!["a".to_string(), "b".to_string()],
        rows: vec![vec![Json::from_i64(1), Json::Null], Vec::new()],
        truncated: true,
    };
    assert_eq!(
        written(finish_query("id".to_string(), &config(), Ok(output))),
        r#"{"columns":["a","b"],"connectionId":"id","rows":[[1,null],[]],"truncated":true}"#
    );
    assert_eq!(
        written(finish_metadata("id".to_string(), &config(), Ok(parse("[2]")))),
        r#"{"connectionId":"id","metadata":[2]}"#
    );
}

#[test]
fn the_statement_of_a_query_is_picked() {
    let some = |s: &str| Some(s.to_string());
    assert_eq!(query_statement(some("a"), some("b"), some("c")).unwrap(), "a");
    assert_eq!(query_statement(None, some("b"), some("c")).unwrap(), "b");
    assert_eq!(query_statement(None, None, some("c")).unwrap(), "c");
    assert_eq!(
        written(query_statement(None, None, None).unwrap_err()),
        "connector.invalidRequest|query requires a string sql, query, or statement field."
    );
}
