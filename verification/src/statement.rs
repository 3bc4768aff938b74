//! SQL statements: sending them, waiting for them, collecting their rows.

use crate::config::{ConfigView, DatabricksConfig};
use crate::json;
use crate::json::{Json, JsonView};
use crate::text;
use vstd::prelude::*;

verus! {

// ---------------------------------------------------------------- the request

/// `body` with the member `key` set to a text, where there is one.
pub open spec fn with_text(
    body: Map<Seq<char>, JsonView>,
    key: Seq<char>,
    value: Option<Seq<char>>,
) -> Map<Seq<char>, JsonView> {
    match value {
        Some(s) => body.insert(key, JsonView::Text(s)),
        None => body,
    }
}

/// The body of a statement request: the statement and its warehouse, the wait and
/// the form of the result, and the catalog and schema where they are configured.
pub open spec fn statement_document(config: ConfigView, sql: Seq<char>) -> JsonView {
    let body = Map::<Seq<char>, JsonView>::empty().insert(
        "statement"@,
        JsonView::Text(sql),
    ).insert("warehouse_id"@, JsonView::Text(config.warehouse_id)).insert(
        "wait_timeout"@,
        JsonView::Text("30s"@),
    ).insert("on_wait_timeout"@, JsonView::Text("CONTINUE"@)).insert(
        "disposition"@,
        JsonView::Text("INLINE"@),
    ).insert("format"@, JsonView::Text("JSON_ARRAY"@));
    JsonView::Object(
        with_text(with_text(body, "catalog"@, config.catalog), "schema"@, config.schema),
    )
}

/// Writes the body of a statement request.
pub fn statement_body(config: &DatabricksConfig, sql: &str) -> (r: Json)
    ensures
        r@ == statement_document(config@, sql@),
{
    let mut body: Vec<(String, Json)> = Vec::new();
    json::put_text(&mut body, "statement", sql);
    json::put_text(&mut body, "warehouse_id", config.warehouse_id.as_str());
    json::put_text(&mut body, "wait_timeout", "30s");
    json::put_text(&mut body, "on_wait_timeout", "CONTINUE");
    json::put_text(&mut body, "disposition", "INLINE");
    json::put_text(&mut body, "format", "JSON_ARRAY");
    if let Some(catalog) = &config.catalog {
        json::put_text(&mut body, "catalog", catalog.as_str());
    }
    if let Some(schema) = &config.schema {
        json::put_text(&mut body, "schema", schema.as_str());
    }
    Json::Object(body)
}

// ------------------------------------------------------- the state of a statement

/// The state that a statement response reports.
pub open spec fn state_of(value: JsonView) -> Option<Seq<char>> {
    match value.at(seq!["status"@, "state"@]) {
        Some(v) => v.text(),
        None => None,
    }
}

/// Reads the state that a statement response reports.
pub fn statement_state(value: &Json) -> (r: Option<String>)
    ensures
        match r {
            Some(s) => state_of(value@) == Some(s@),
            None => state_of(value@) is None,
        },
{
    assert(json::words(["status", "state"]@) =~= seq!["status"@, "state"@]);
    match value.at(&["status", "state"]) {
        Some(v) => match v.as_str() {
            Some(s) => Some(s.to_string()),
            None => None,
        },
        None => None,
    }
}

/// The message about a statement that failed without reporting an error, where
/// `response` is the text of its response.
pub open spec fn failed_message(response: Seq<char>) -> Seq<char> {
    "Databricks statement failed: "@ + response
}

/// Words the message about a statement that failed without reporting an error.
pub fn statement_failed(response: &str) -> (r: String)
    ensures
        r@ == failed_message(response@),
{
    text::join("Databricks statement failed: ", response)
}

/// What a failed statement reports: the message of its error, or else the error,
/// as JSON; or else all of the response.
pub open spec fn error_of(value: JsonView) -> Seq<char> {
    match value.at(seq!["status"@, "error"@, "message"@]) {
        Some(v) => v.rendered(),
        None => match value.at(seq!["status"@, "error"@]) {
            Some(v) => v.rendered(),
            None => failed_message(value.rendered()),
        },
    }
}

/// Words what a failed statement reports.
pub fn statement_error(value: &Json) -> (r: String)
    ensures
        r@ == error_of(value@),
{
    proof {
        assert(json::words(["status", "error", "message"]@) =~= seq![
            "status"@,
            "error"@,
            "message"@,
        ]);
        assert(json::words(["status", "error"]@) =~= seq!["status"@, "error"@]);
    }
    match value.at(&["status", "error", "message"]) {
        Some(v) => v.to_text(),
        None => match value.at(&["status", "error"]) {
            Some(v) => v.to_text(),
            None => {
                let response: String = value.to_text();
                statement_failed(response.as_str())
            },
        },
    }
}

/// What a response says of its statement.
#[derive(Clone, Copy, PartialEq, Eq, Structural, Debug)]
pub enum Verdict {
    Finished,
    Failed,
    Undecided,
}

/// What a response says of its statement: the reported state decides; where it is
/// none of the known ones, a response with a result is a finished one.
pub open spec fn verdict_of(value: JsonView) -> Verdict {
    let state = state_of(value);
    if state == Some("SUCCEEDED"@) {
        Verdict::Finished
    } else if state == Some("FAILED"@) || state == Some("CANCELED"@) || state == Some("CLOSED"@) {
        Verdict::Failed
    } else if state == Some("PENDING"@) || state == Some("RUNNING"@) || state == Some("QUEUED"@) {
        Verdict::Undecided
    } else if value.member("result"@) is Some {
        Verdict::Finished
    } else {
        Verdict::Undecided
    }
}

/// Decides what a response says of its statement.
pub fn verdict(value: &Json) -> (r: Verdict)
    ensures
        r == verdict_of(value@),
{
    if let Some(state) = statement_state(value) {
        let state: &str = state.as_str();
        if text::same_text(state, "SUCCEEDED") {
            return Verdict::Finished;
        }
        if text::same_text(state, "FAILED") || text::same_text(state, "CANCELED")
            || text::same_text(state, "CLOSED") {
            return Verdict::Failed;
        }
        if text::same_text(state, "PENDING") || text::same_text(state, "RUNNING")
            || text::same_text(state, "QUEUED") {
            return Verdict::Undecided;
        }
    }
    match value.get("result") {
        Some(_) => Verdict::Finished,
        None => Verdict::Undecided,
    }
}

// ------------------------------------------------------------------- polling

/// How many responses are looked at before a statement is given up.
pub const POLL_LIMIT: u32 = 60;

/// How many seconds pass before a statement is asked for again.
pub const POLL_PAUSE_SECONDS: u64 = 1;

/// Counts the responses that a statement was given.
pub struct StatementPoll {
    checked: u32,
}

/// What to do after a response.
#[derive(Debug, PartialEq, Eq)]
pub enum PollStep {
    Finished,
    Fail(String),
    Fetch(String),
}

/// What a poll step says.
pub enum PollView {
    Finished,
    Fail(Seq<char>),
    Fetch(Seq<char>),
}

impl View for PollStep {
    type V = PollView;

    open spec fn view(&self) -> PollView {
        match self {
            PollStep::Finished => PollView::Finished,
            PollStep::Fail(m) => PollView::Fail(m@),
            PollStep::Fetch(p) => PollView::Fetch(p@),
        }
    }
}

impl View for StatementPoll {
    type V = nat;

    closed spec fn view(&self) -> nat {
        self.checked as nat
    }
}

/// The message about a response without a statement id.
pub open spec fn missing_id_message(response: Seq<char>) -> Seq<char> {
    "Databricks statement response missing statement_id: "@ + response
}

/// Words the message about a response without a statement id.
pub fn missing_statement_id(response: &str) -> (r: String)
    ensures
        r@ == missing_id_message(response@),
{
    text::join("Databricks statement response missing statement_id: ", response)
}

/// The statement that a response is about.
pub open spec fn statement_id(value: JsonView) -> Option<Seq<char>> {
    match value.member("statement_id"@) {
        Some(v) => v.text(),
        None => None,
    }
}

/// What to do after the response `value`, when `checked` responses were looked at
/// before it.
pub open spec fn poll_step(checked: nat, value: JsonView) -> PollView {
    if checked >= POLL_LIMIT {
        PollView::Fail("Databricks statement did not finish before polling timeout."@)
    } else {
        match verdict_of(value) {
            Verdict::Finished => PollView::Finished,
            Verdict::Failed => PollView::Fail(error_of(value)),
            Verdict::Undecided => match statement_id(value) {
                Some(id) => PollView::Fetch("/api/2.0/sql/statements/"@ + id),
                None => PollView::Fail(missing_id_message(value.rendered())),
            },
        }
    }
}

impl StatementPoll {
    /// A poll that has seen nothing yet.
    pub fn new() -> (r: StatementPoll)
        ensures
            r@ == 0,
    {
        StatementPoll { checked: 0 }
    }

    /// Looks at a response.
    pub fn next(&mut self, value: &Json) -> (r: PollStep)
        ensures
            r@ == poll_step(old(self)@, value@),
            final(self)@ == if old(self)@ < POLL_LIMIT {
                old(self)@ + 1
            } else {
                old(self)@
            },
    {
        if self.checked >= POLL_LIMIT {
            return PollStep::Fail(
                "Databricks statement did not finish before polling timeout.".to_string(),
            );
        }
        self.checked = self.checked + 1;
        match verdict(value) {
            Verdict::Finished => PollStep::Finished,
            Verdict::Failed => PollStep::Fail(statement_error(value)),
            Verdict::Undecided => {
                let id: Option<&str> = match value.get("statement_id") {
                    Some(v) => v.as_str(),
                    None => None,
                };
                match id {
                    Some(id) => PollStep::Fetch(text::join("/api/2.0/sql/statements/", id)),
                    None => {
                        let response: String = value.to_text();
                        PollStep::Fail(missing_statement_id(response.as_str()))
                    },
                }
            },
        }
    }
}

// --------------------------------------------------------------------- laws

/// Among the first responses that are looked at, a statement is finished as soon as
/// one reports success, and fails with what it reports as soon as one reports that
/// it failed, was canceled or was closed.
pub proof fn reported_states_decide(checked: nat, value: JsonView)
    requires
        checked < POLL_LIMIT,
    ensures
        state_of(value) == Some("SUCCEEDED"@) ==> poll_step(checked, value) is Finished,
        state_of(value) == Some("FAILED"@) ==> poll_step(checked, value) == PollView::Fail(
            error_of(value),
        ),
        state_of(value) == Some("CANCELED"@) ==> poll_step(checked, value) == PollView::Fail(
            error_of(value),
        ),
        state_of(value) == Some("CLOSED"@) ==> poll_step(checked, value) == PollView::Fail(
            error_of(value),
        ),
{
    reveal_strlit("SUCCEEDED");
    reveal_strlit("FAILED");
    reveal_strlit("CANCELED");
    reveal_strlit("CLOSED");
    assert("SUCCEEDED"@[0] == 'S' && "FAILED"@[0] == 'F' && "CANCELED"@[0] == 'C'
        && "CLOSED"@[0] == 'C');
}

/// A statement that is pending, running or queued is asked for again, by its id.
pub proof fn waiting_states_fetch(checked: nat, value: JsonView, id: Seq<char>)
    requires
        checked < POLL_LIMIT,
        state_of(value) == Some("PENDING"@) || state_of(value) == Some("RUNNING"@) || state_of(
            value,
        ) == Some("QUEUED"@),
        statement_id(value) == Some(id),
    ensures
        poll_step(checked, value) == PollView::Fetch("/api/2.0/sql/statements/"@ + id),
{
    reveal_strlit("SUCCEEDED");
    reveal_strlit("FAILED");
    reveal_strlit("CANCELED");
    reveal_strlit("CLOSED");
    reveal_strlit("PENDING");
    reveal_strlit("RUNNING");
    reveal_strlit("QUEUED");
    assert("SUCCEEDED"@[0] == 'S' && "FAILED"@[0] == 'F' && "CANCELED"@[0] == 'C'
        && "CLOSED"@[0] == 'C' && "PENDING"@[0] == 'P' && "RUNNING"@[0] == 'R'
        && "QUEUED"@[0] == 'Q');
}

/// A statement is sent with its text, its warehouse, the wait and the form of its
/// result; with the catalog exactly where one is configured and the schema exactly
/// where one is configured, each whether or not the other is; and with nothing else.
pub proof fn statements_carry_their_settings(config: ConfigView, sql: Seq<char>)
    ensures
        statement_document(config, sql) matches JsonView::Object(m) && {
            &&& m.contains_key("statement"@) && m["statement"@] == JsonView::Text(sql)
            &&& m.contains_key("warehouse_id"@) && m["warehouse_id"@] == JsonView::Text(
                config.warehouse_id,
            )
            &&& m.contains_key("wait_timeout"@) && m["wait_timeout"@] == JsonView::Text("30s"@)
            &&& m.contains_key("on_wait_timeout"@) && m["on_wait_timeout"@] == JsonView::Text(
                "CONTINUE"@,
            )
            &&& m.contains_key("disposition"@) && m["disposition"@] == JsonView::Text("INLINE"@)
            &&& m.contains_key("format"@) && m["format"@] == JsonView::Text("JSON_ARRAY"@)
            &&& m.contains_key("catalog"@) <==> config.catalog is Some
            &&& config.catalog matches Some(c) ==> m["catalog"@] == JsonView::Text(c)
            &&& m.contains_key("schema"@) <==> config.schema is Some
            &&& config.schema matches Some(s) ==> m["schema"@] == JsonView::Text(s)
            &&& forall|k: Seq<char>| #[trigger]
                m.contains_key(k) ==> k == "statement"@ || k == "warehouse_id"@ || k
                    == "wait_timeout"@ || k == "on_wait_timeout"@ || k == "disposition"@ || k
                    == "format"@ || k == "catalog"@ || k == "schema"@
        },
{
    reveal_strlit("statement");
    reveal_strlit("warehouse_id");
    reveal_strlit("wait_timeout");
    reveal_strlit("on_wait_timeout");
    reveal_strlit("disposition");
    reveal_strlit("format");
    reveal_strlit("catalog");
    reveal_strlit("schema");
    assert("statement"@.len() == 9 && "on_wait_timeout"@.len() == 15 && "disposition"@.len() == 11
        && "catalog"@.len() == 7);
    assert("warehouse_id"@.len() == 12 && "warehouse_id"@[2] == 'r');
    assert("wait_timeout"@.len() == 12 && "wait_timeout"@[2] == 'i');
    assert("format"@.len() == 6 && "format"@[0] == 'f');
    assert("schema"@.len() == 6 && "schema"@[0] == 's');
}

/// Sixty responses are looked at, a second apart, before a statement is given up.
pub proof fn statements_are_given_up_after_sixty_responses(checked: nat, value: JsonView)
    ensures
        POLL_PAUSE_SECONDS == 1,
        checked >= 60 ==> poll_step(checked, value) == PollView::Fail(
            "Databricks statement did not finish before polling timeout."@,
        ),
        checked < 60 && value.at(seq!["status"@, "state"@]) == Some(
            JsonView::Text("SUCCEEDED"@),
        ) ==> poll_step(checked, value) is Finished,
{
    reveal_strlit("SUCCEEDED");
}

/// A failed, canceled or closed statement fails at once, with the message of its
/// error; or else with its error; or else with all of the response.
pub proof fn failed_statements_report_their_error(checked: nat, value: JsonView, state: Seq<char>)
    requires
        checked < 60,
        value.at(seq!["status"@, "state"@]) == Some(JsonView::Text(state)),
        state == "FAILED"@ || state == "CANCELED"@ || state == "CLOSED"@,
    ensures
        poll_step(checked, value) matches PollView::Fail(message) && {
            &&& value.at(seq!["status"@, "error"@, "message"@]) matches Some(m) ==> message
                == m.rendered()
            &&& value.at(seq!["status"@, "error"@, "message"@]) is None ==> {
                &&& value.at(seq!["status"@, "error"@]) matches Some(e) ==> message
                    == e.rendered()
                &&& value.at(seq!["status"@, "error"@]) is None ==> message
                    == "Databricks statement failed: "@ + value.rendered()
            }
        },
{
    reported_states_decide(checked, value);
}

/// A response that does not decide makes the statement be asked for again, at the
/// address of its id; without an id it fails, with the response. A response decides
/// unless it reports a waiting state, or reports no state that is known and has no
/// result.
pub proof fn undecided_statements_are_asked_for_again(
    checked: nat,
    value: JsonView,
    state: Option<JsonView>,
)
    requires
        checked < 60,
        state == value.at(seq!["status"@, "state"@]),
        ({
            ||| state == Some(JsonView::Text("PENDING"@))
            ||| state == Some(JsonView::Text("RUNNING"@))
            ||| state == Some(JsonView::Text("QUEUED"@))
            ||| {
                &&& state != Some(JsonView::Text("SUCCEEDED"@))
                &&& state != Some(JsonView::Text("FAILED"@))
                &&& state != Some(JsonView::Text("CANCELED"@))
                &&& state != Some(JsonView::Text("CLOSED"@))
                &&& value.member("result"@) is None
            }
        }),
    ensures
        value.member("statement_id"@) matches Some(JsonView::Text(id)) ==> poll_step(
            checked,
            value,
        ) == PollView::Fetch("/api/2.0/sql/statements/"@ + id),
        !(value.member("statement_id"@) matches Some(JsonView::Text(_))) ==> poll_step(
            checked,
            value,
        ) == PollView::Fail(
            "Databricks statement response missing statement_id: "@ + value.rendered(),
        ),
{
    lemma_states_differ();
    if let Some(JsonView::Text(s)) = state {
        assert(state_of(value) == Some(s));
    }
}

/// A response that reports no state that is known, but has a result, finishes its
/// statement.
pub proof fn results_without_a_known_state_finish(checked: nat, value: JsonView)
    requires
        checked < 60,
        value.member("result"@) is Some,
        ({
            let state = value.at(seq!["status"@, "state"@]);
            &&& state != Some(JsonView::Text("FAILED"@))
            &&& state != Some(JsonView::Text("CANCELED"@))
            &&& state != Some(JsonView::Text("CLOSED"@))
            &&& state != Some(JsonView::Text("PENDING"@))
            &&& state != Some(JsonView::Text("RUNNING"@))
            &&& state != Some(JsonView::Text("QUEUED"@))
        }),
    ensures
        poll_step(checked, value) is Finished,
{
    if let Some(JsonView::Text(s)) = value.at(seq!["status"@, "state"@]) {
        assert(state_of(value) == Some(s));
    }
}

/// No state in which a statement is waited for is one that decides.
proof fn lemma_states_differ()
    ensures
        "PENDING"@ != "SUCCEEDED"@ && "PENDING"@ != "FAILED"@ && "PENDING"@ != "CANCELED"@,
        "RUNNING"@ != "SUCCEEDED"@ && "RUNNING"@ != "FAILED"@ && "RUNNING"@ != "CANCELED"@,
        "QUEUED"@ != "SUCCEEDED"@ && "QUEUED"@ != "FAILED"@ && "QUEUED"@ != "CANCELED"@,
        "PENDING"@ != "CLOSED"@ && "RUNNING"@ != "CLOSED"@ && "QUEUED"@ != "CLOSED"@,
{
    reveal_strlit("SUCCEEDED");
    reveal_strlit("FAILED");
    reveal_strlit("CANCELED");
    reveal_strlit("CLOSED");
    reveal_strlit("PENDING");
    reveal_strlit("RUNNING");
    reveal_strlit("QUEUED");
    assert("SUCCEEDED"@[0] == 'S' && "FAILED"@[0] == 'F' && "CANCELED"@[0] == 'C'
        && "CLOSED"@[0] == 'C' && "PENDING"@[0] == 'P' && "RUNNING"@[0] == 'R'
        && "QUEUED"@[0] == 'Q');
}

/// What the message about a failure says is put behind its wording.
pub proof fn messages_quote_the_response(response: Seq<char>)
    ensures
        failed_message(response) == "Databricks statement failed: "@ + response,
        missing_id_message(response) == "Databricks statement response missing statement_id: "@
            + response,
{
}

/// What a response says of its statement decides what is done after it.
pub proof fn verdicts_decide(checked: nat, value: JsonView)
    requires
        checked < 60,
    ensures
        verdict_of(value) is Finished <==> poll_step(checked, value) is Finished,
        poll_step(checked, value) is Fetch ==> verdict_of(value) is Undecided,
        verdict_of(value) is Failed ==> poll_step(checked, value) == PollView::Fail(
            error_of(value),
        ),
        state_of(value) matches Some(s) ==> value.at(seq!["status"@, "state"@]) == Some(
            JsonView::Text(s),
        ),
        value.at(seq!["status"@, "state"@]) matches Some(JsonView::Text(s)) ==> state_of(value)
            == Some(s),
{
}

/// A step says what its text says.
pub proof fn poll_steps_say_their_texts(s: String)
    ensures
        PollStep::Finished@ == PollView::Finished,
        PollStep::Fail(s)@ == PollView::Fail(s@),
        PollStep::Fetch(s)@ == PollView::Fetch(s@),
{
}

} // verus!
