use databricks_connector::config::DatabricksConfig;
use databricks_connector::execution::{fetch_request, statement_request, SqlRun, SqlStep};
use databricks_connector::http::{
    build_request, parsed_answer, read_reply, status_error, HttpMethod, HttpReply,
};
use databricks_connector::json::Json;
use databricks_connector::rows::{QueryOutput, RowCollector};
use databricks_connector::statement::{
    missing_statement_id, statement_body, statement_error, statement_failed, statement_state,
    verdict, PollStep, StatementPoll, Verdict, POLL_LIMIT, POLL_PAUSE_SECONDS,
};

fn parse(text: &str) -> Json {
    Json::parse(text).unwrap()
}

fn config() -> DatabricksConfig {
    DatabricksConfig::from_request(&parse(
        r#"{"host":"h","warehouseId":"w","token":"tok","catalog":"c"}"#,
    ))
    .unwrap()
}

fn cells(output: &QueryOutput) -> Vec<Vec<String>> {
    output.rows.iter().map(|r| r.iter().map(|c| c.to_text()).collect()).collect()
}

#[test]
fn statements_are_posted() {
    let request = statement_request(&config(), "select 1");
    assert_eq!(request.method, HttpMethod::Post);
    assert_eq!(request.url, "https://h/api/2.0/sql/statements");
    assert_eq!(request.token, "tok");
    assert_eq!(
        request.body.unwrap().to_text(),
        r#"{"catalog":"c","disposition":"INLINE","format":"JSON_ARRAY","on_wait_timeout":"CONTINUE","statement":"select 1","wait_timeout":"30s","warehouse_id":"w"}"#
    );
    let mut other = config();
    other.catalog = None;
    other.schema = Some("s".to_string());
    assert_eq!(statement_body(&other, "x").get("schema").unwrap().as_str(), Some("s"));
    assert!(statement_body(&other, "x").get("catalog").is_none());
}

#[test]
fn paths_become_addresses() {
    let c = config();
    let get = fetch_request(&c, "/a");
    assert_eq!((get.method, get.url.as_str(), get.token.as_str()), (HttpMethod::Get, "https://h/a", "tok"));
    assert!(get.body.is_none());
    assert_eq!(fetch_request(&c, "http://x/y").url, "http://x/y");
    assert_eq!(fetch_request(&c, "https://x/y").url, "https://x/y");
    assert_eq!(build_request(&c, "POST", "/b", None).unwrap().method, HttpMethod::Post);
    assert_eq!(build_request(&c, "GET", "/b", None).unwrap().method, HttpMethod::Get);
    assert_eq!(build_request(&c, "PUT", "/b", None).unwrap_err(), "unsupported HTTP method: PUT");
}

#[test]
fn replies_are_read() {
    let answer = |status: u16, text: &str| {
        read_reply(&HttpReply::Answer { status, text: text.to_string() })
    };
    assert_eq!(answer(200, "[1]").unwrap().to_text(), "[1]");
    assert_eq!(answer(299, "1").unwrap().to_text(), "1");
    assert_eq!(answer(404, "gone").unwrap_err(), "Databricks returned HTTP 404 Not Found: gone");
    assert_eq!(
        answer(599, "").unwrap_err(),
        "Databricks returned HTTP 599 <unknown status code>: "
    );
    assert_eq!(answer(300, "{}").unwrap_err(), "Databricks returned HTTP 300 Multiple Choices: {}");
    let expected = serde_json::from_str::<serde_json::Value>("nope").unwrap_err().to_string();
    assert_eq!(
        answer(200, "nope").unwrap_err(),
        format!("Databricks JSON response parse failed: {}: nope", expected)
    );
    assert_eq!(
        read_reply(&HttpReply::SendFailed("x".to_string())).unwrap_err(),
        "Databricks request failed: x"
    );
    assert_eq!(
        read_reply(&HttpReply::ReadFailed("y".to_string())).unwrap_err(),
        "Databricks response read failed: y"
    );
    assert_eq!(status_error("418 Teapot", "t"), "Databricks returned HTTP 418 Teapot: t");
    assert_eq!(
        parsed_answer(Err("e".to_string()), "t").unwrap_err(),
        "Databricks JSON response parse failed: e: t"
    );
}

#[test]
fn states_decide() {
    let of = |state: &str| verdict(&parse(&format!("{{\"status\":{{\"state\":\"{}\"}}}}", state)));
    assert_eq!(of("SUCCEEDED"), Verdict::Finished);
    for state in ["FAILED", "CANCELED", "CLOSED"] {
        assert_eq!(of(state), Verdict::Failed);
    }
    for state in ["PENDING", "RUNNING", "QUEUED", "OTHER", "succeeded"] {
        assert_eq!(of(state), Verdict::Undecided);
    }
    assert_eq!(verdict(&parse(r#"{"result":null}"#)), Verdict::Finished);
    assert_eq!(verdict(&parse(r#"{"status":{"state":1},"result":{}}"#)), Verdict::Finished);
    assert_eq!(verdict(&parse(r#"{"status":{"state":"RUNNING"},"result":{}}"#)), Verdict::Undecided);
    assert_eq!(verdict(&parse("{}")), Verdict::Undecided);
    assert_eq!(statement_state(&parse(r#"{"status":{"state":"X"}}"#)), Some("X".to_string()));
    assert_eq!(statement_state(&parse(r#"{"status":[]}"#)), None);
}

#[test]
fn errors_are_worded() {
    assert_eq!(
        statement_error(&parse(r#"{"status":{"error":{"message":"boom"}}}"#)),
        "\"boom\""
    );
    assert_eq!(
        statement_error(&parse(r#"{"status":{"error":{"code":3}}}"#)),
        "{\"code\":3}"
    );
    assert_eq!(
        statement_error(&parse(r#"{"status":{"error":{"message":null}}}"#)),
        "null"
    );
    assert_eq!(
        statement_error(&parse(r#"{"status":{}}"#)),
        "Databricks statement failed: {\"status\":{}}"
    );
    assert_eq!(statement_failed("x"), "Databricks statement failed: x");
    assert_eq!(
        missing_statement_id("x"),
        "Databricks statement response missing statement_id: x"
    );
    assert_eq!((POLL_LIMIT, POLL_PAUSE_SECONDS), (60, 1));
}

#[test]
fn polling_steps() {
    let mut poll = StatementPoll::new();
    assert_eq!(
        poll.next(&parse(r#"{"statement_id":"s1","status":{"state":"PENDING"}}"#)),
        PollStep::Fetch("/api/2.0/sql/statements/s1".to_string())
    );
    assert_eq!(
        poll.next(&parse(r#"{"status":{"state":"PENDING"}}"#)),
        PollStep::Fail(
            "Databricks statement response missing statement_id: {\"status\":{\"state\":\"PENDING\"}}"
                .to_string()
        )
    );
    assert_eq!(
        poll.next(&parse(r#"{"status":{"state":"CANCELED","error":"e"}}"#)),
        PollStep::Fail("\"e\"".to_string())
    );
    assert_eq!(poll.next(&parse(r#"{"status":{"state":"SUCCEEDED"}}"#)), PollStep::Finished);
}

#[test]
fn polling_gives_up_after_sixty_responses() {
    let pending = r#"{"statement_id":"s","status":{"state":"RUNNING"}}"#;
    let mut run = SqlRun::new(5);
    for _ in 0..60 {
        run = match run.advance(Ok(parse(pending))) {
            SqlStep::Get { path, pause, run } => {
                assert_eq!(path, "/api/2.0/sql/statements/s");
                assert!(pause);
                run
            }
            _ => panic!("the statement is not decided"),
        };
    }
    match run.advance(Ok(parse(r#"{"status":{"state":"SUCCEEDED"}}"#))) {
        SqlStep::Fail(message) => assert_eq!(
            message,
            "Databricks statement did not finish before polling timeout."
        ),
        _ => panic!("the poll is over"),
    }
}

#[test]
fn rows_are_collected_chunk_by_chunk() {
    let first = r#"{"status":{"state":"SUCCEEDED"},
        "manifest":{"schema":{"columns":[{"name":"a"},{"x":1},{"name":2}]}},
        "result":{"data_array":[["1","2"],"x"],"next_chunk_internal_link":"/next"}}"#;
    let run = match SqlRun::new(10).advance(Ok(parse(first))) {
        SqlStep::Get { path, pause, run } => {
            assert_eq!((path.as_str(), pause), ("/next", false));
            run
        }
        _ => panic!("there is another chunk"),
    };
    match run.advance(Ok(parse(r#"{"result":{"data_array":[[null]]}}"#))) {
        SqlStep::Done(output) => {
            assert_eq!(output.columns, ["a", "value", "value"]);
            assert_eq!(cells(&output), [vec!["\"1\"", "\"2\""], vec!["\"x\""], vec!["null"]]);
            assert!(!output.truncated);
        }
        _ => panic!("there is no other chunk"),
    }
}

#[test]
fn runs_end_with_messages() {
    match SqlRun::new(1).advance(Err("no".to_string())) {
        SqlStep::Fail(message) => assert_eq!(message, "no"),
        _ => panic!("a message ends the run"),
    }
}

#[test]
fn rows_stop_at_the_cap() {
    let first = parse(
        r#"{"manifest":{"truncated":false},
            "result":{"data_array":[[1],[2],[3]],"next_chunk_internal_link":"/n"}}"#,
    );
    let collect = |cap: usize| {
        let mut rows = RowCollector::new(&first, cap);
        let link = rows.absorb(&first);
        (link, rows.finish())
    };
    let (link, output) = collect(2);
    assert_eq!(link, None);
    assert_eq!(cells(&output), [["1"], ["2"]]);
    assert!(output.truncated);
    let (link, output) = collect(3);
    assert_eq!(link, None);
    assert_eq!(output.rows.len(), 3);
    assert!(!output.truncated);
    let (link, output) = collect(4);
    assert_eq!(link, Some("/n".to_string()));
    assert!(!output.truncated);
    let (link, output) = collect(0);
    assert_eq!(link, None);
    assert!(output.rows.is_empty() && output.truncated);
}

#[test]
fn truncation_is_taken_from_the_manifest() {
    let first = parse(r#"{"manifest":{"truncated":true}}"#);
    let mut rows = RowCollector::new(&first, 5);
    assert_eq!(rows.absorb(&first), None);
    let output = rows.finish();
    assert!(output.truncated && output.rows.is_empty() && output.columns.is_empty());
}

#[test]
fn queries_return_the_first_rows() {
    let replies = [
        r#"{"statement_id":"s","status":{"state":"PENDING"}}"#,
        r#"{"statement_id":"s","status":{"state":"RUNNING"}}"#,
        r#"{"status":{"state":"SUCCEEDED"},
            "result":{"data_array":[[1],[2]],"next_chunk_internal_link":"/c1"}}"#,
        r#"{"result":{"data_array":[[3],[4]],"next_chunk_internal_link":"/c2"}}"#,
    ];
    let mut run = SqlRun::new(3);
    let mut paths: Vec<String> = Vec::new();
    for (i, reply) in replies.iter().enumerate() {
        run = match run.advance(Ok(parse(reply))) {
            SqlStep::Get { path, pause, run } => {
                assert_eq!(pause, i < 2);
                paths.push(path);
                run
            }
            SqlStep::Done(output) => {
                assert_eq!(i, 3);
                assert_eq!(cells(&output), [["1"], ["2"], ["3"]]);
                assert!(output.truncated);
                break;
            }
            SqlStep::Fail(message) => panic!("{}", message),
        };
    }
    assert_eq!(
        paths,
        ["/api/2.0/sql/statements/s", "/api/2.0/sql/statements/s", "/c1"]
    );
}
