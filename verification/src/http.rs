//! Requests to the workspace, and what their replies say.

use crate::config::{ConfigView, DatabricksConfig};
use crate::json;
use crate::json::{Json, JsonView};
use crate::text;
use crate::url;
use vstd::prelude::*;

verus! {

/// The HTTP methods in use.
#[derive(Clone, Copy, PartialEq, Eq, Structural, Debug)]
pub enum HttpMethod {
    Get,
    Post,
}

/// A request that carries its token as a bearer token and its body as JSON.
#[derive(Debug, PartialEq, Eq)]
pub struct HttpRequest {
    pub method: HttpMethod,
    pub url: String,
    pub token: String,
    pub body: Option<Json>,
}

/// What a request says.
pub struct RequestView {
    pub method: HttpMethod,
    pub url: Seq<char>,
    pub token: Seq<char>,
    pub body: Option<JsonView>,
}

/// What the document says that there is, or none.
pub open spec fn optional_document(j: Option<Json>) -> Option<JsonView> {
    match j {
        Some(j) => Some(j@),
        None => None,
    }
}

impl View for HttpRequest {
    type V = RequestView;

    open spec fn view(&self) -> RequestView {
        RequestView {
            method: self.method,
            url: self.url@,
            token: self.token@,
            body: optional_document(self.body),
        }
    }
}

/// The address that `path` stands for: itself where it names a scheme, and else
/// a place below `base_url`.
pub open spec fn address(base_url: Seq<char>, path: Seq<char>) -> Seq<char> {
    if url::has_scheme(path) {
        path
    } else {
        base_url + path
    }
}

/// The method of the given name.
pub open spec fn method_named(name: Seq<char>) -> Option<HttpMethod> {
    if name == "POST"@ {
        Some(HttpMethod::Post)
    } else if name == "GET"@ {
        Some(HttpMethod::Get)
    } else {
        None
    }
}

/// The request that a configured connection makes, or why it makes none.
pub open spec fn request_for(
    config: ConfigView,
    method: Seq<char>,
    path: Seq<char>,
    body: Option<JsonView>,
) -> Result<RequestView, Seq<char>> {
    match method_named(method) {
        Some(m) => Ok(
            RequestView {
                method: m,
                url: address(config.base_url, path),
                token: config.token,
                body,
            },
        ),
        None => Err("unsupported HTTP method: "@ + method),
    }
}

/// Makes the request for `path` on a configured connection.
pub fn make_request(
    config: &DatabricksConfig,
    method: HttpMethod,
    path: &str,
    body: Option<Json>,
) -> (r: HttpRequest)
    ensures
        r@ == (RequestView {
            method,
            url: address(config@.base_url, path@),
            token: config@.token,
            body: optional_document(body),
        }),
{
    let chars: Vec<char> = text::chars_of(path);
    let url: String = if text::starts_with(chars.as_slice(), "http://") || text::starts_with(
        chars.as_slice(),
        "https://",
    ) {
        path.to_string()
    } else {
        text::join(config.base_url.as_str(), path)
    };
    HttpRequest { method, url, token: config.token.clone(), body }
}

/// Makes the request for `path` with the method of the given name.
pub fn build_request(
    config: &DatabricksConfig,
    method: &str,
    path: &str,
    body: Option<Json>,
) -> (r: Result<HttpRequest, String>)
    ensures
        match r {
            Ok(q) => request_for(config@, method@, path@, optional_document(body)) == Ok::<
                RequestView,
                Seq<char>,
            >(q@),
            Err(e) => request_for(config@, method@, path@, optional_document(body)) == Err::<
                RequestView,
                Seq<char>,
            >(e@),
        },
{
    if text::same_text(method, "POST") {
        Ok(make_request(config, HttpMethod::Post, path, body))
    } else if text::same_text(method, "GET") {
        Ok(make_request(config, HttpMethod::Get, path, body))
    } else {
        Err(text::join("unsupported HTTP method: ", method))
    }
}

// ------------------------------------------------------------------ replies

/// What came of a request: it could not be sent, its answer could not be read,
/// or there is an answer.
#[derive(Debug)]
pub enum HttpReply {
    SendFailed(String),
    ReadFailed(String),
    Answer { status: u16, text: String },
}

/// What a reply says.
pub enum ReplyView {
    SendFailed(Seq<char>),
    ReadFailed(Seq<char>),
    Answer { status: u16, text: Seq<char> },
}

impl View for HttpReply {
    type V = ReplyView;

    open spec fn view(&self) -> ReplyView {
        match self {
            HttpReply::SendFailed(e) => ReplyView::SendFailed(e@),
            HttpReply::ReadFailed(e) => ReplyView::ReadFailed(e@),
            HttpReply::Answer { status, text } => ReplyView::Answer { status: *status, text: text@ },
        }
    }
}

/// How `reqwest::StatusCode` writes a status: its number and its reason.
pub uninterp spec fn status_text(status: u16) -> Seq<char>;

/// The `Display` form of the `reqwest::StatusCode` of a number, which is there
/// for numbers of three digits. Which reasons there are is named, not said.
#[verifier::external_body]
fn status_line(status: u16) -> (r: String)
    requires
        100 <= status <= 999,
    ensures
        r@ == status_text(status),
{
    reqwest::StatusCode::from_u16(status).unwrap().to_string()
}

/// The message about an answer with a status that is not a success.
pub open spec fn status_message(line: Seq<char>, body: Seq<char>) -> Seq<char> {
    "Databricks returned HTTP "@ + line + ": "@ + body
}

/// Words the message about a status that is not a success.
pub fn status_error(line: &str, body: &str) -> (r: String)
    ensures
        r@ == status_message(line@, body@),
{
    let mut out: String = text::join("Databricks returned HTTP ", line);
    out.append(": ");
    out.append(body);
    out
}

/// What a successful answer says, once its text was read as JSON with the result
/// `parsed`.
pub open spec fn document_or_message(
    parsed: Result<JsonView, Seq<char>>,
    body: Seq<char>,
) -> Result<JsonView, Seq<char>> {
    match parsed {
        Ok(v) => Ok(v),
        Err(e) => Err("Databricks JSON response parse failed: "@ + e + ": "@ + body),
    }
}

/// Words the message about a text that is not JSON.
pub fn parsed_answer(parsed: Result<Json, String>, body: &str) -> (r: Result<Json, String>)
    ensures
        said(r) == document_or_message(said(parsed), body@),
{
    match parsed {
        Ok(v) => Ok(v),
        Err(e) => {
            let mut out: String = text::join("Databricks JSON response parse failed: ", e.as_str());
            out.append(": ");
            out.append(body);
            Err(out)
        },
    }
}

/// What a document or a message says.
pub open spec fn said(r: Result<Json, String>) -> Result<JsonView, Seq<char>> {
    match r {
        Ok(j) => Ok(j@),
        Err(e) => Err(e@),
    }
}

/// What a reply gives: the document of a successful answer, or a message.
pub open spec fn outcome(reply: ReplyView) -> Result<JsonView, Seq<char>> {
    match reply {
        ReplyView::SendFailed(e) => Err("Databricks request failed: "@ + e),
        ReplyView::ReadFailed(e) => Err("Databricks response read failed: "@ + e),
        ReplyView::Answer { status, text } => if 200 <= status < 300 {
            document_or_message(json::json_parse(text), text)
        } else {
            Err(status_message(status_text(status), text))
        },
    }
}

/// Reads a reply.
pub fn read_reply(reply: &HttpReply) -> (r: Result<Json, String>)
    requires
        reply@ matches ReplyView::Answer { status, .. } ==> 100 <= status <= 999,
    ensures
        said(r) == outcome(reply@),
{
    match reply {
        HttpReply::SendFailed(e) => Err(text::join("Databricks request failed: ", e.as_str())),
        HttpReply::ReadFailed(e) => Err(text::join("Databricks response read failed: ", e.as_str())),
        HttpReply::Answer { status, text } => {
            if 200 <= *status && *status < 300 {
                parsed_answer(Json::parse(text.as_str()), text.as_str())
            } else {
                let line: String = status_line(*status);
                Err(status_error(line.as_str(), text.as_str()))
            }
        },
    }
}

// --------------------------------------------------------------------- laws

/// A path that begins with `http://` or `https://` is its own address, and any other
/// stands behind the base URL.
pub proof fn addresses_are_below_the_base_url(base_url: Seq<char>, path: Seq<char>)
    ensures
        "http://"@.is_prefix_of(path) ==> address(base_url, path) == path,
        "https://"@.is_prefix_of(path) ==> address(base_url, path) == path,
        !"http://"@.is_prefix_of(path) && !"https://"@.is_prefix_of(path) ==> address(
            base_url,
            path,
        ) == base_url + path,
{
    url::schemes_come_first(path);
}

/// Only POST and GET are made into requests, each with the address of the path, the
/// token of the connection and the body as it is; any other method is refused by
/// name.
pub proof fn requests_are_made_as_asked(
    config: ConfigView,
    method: Seq<char>,
    path: Seq<char>,
    body: Option<JsonView>,
)
    ensures
        method == "POST"@ ==> request_for(config, method, path, body) == Ok::<
            RequestView,
            Seq<char>,
        >(
            RequestView {
                method: HttpMethod::Post,
                url: address(config.base_url, path),
                token: config.token,
                body,
            },
        ),
        method == "GET"@ ==> request_for(config, method, path, body) == Ok::<
            RequestView,
            Seq<char>,
        >(
            RequestView {
                method: HttpMethod::Get,
                url: address(config.base_url, path),
                token: config.token,
                body,
            },
        ),
        method != "POST"@ && method != "GET"@ ==> request_for(config, method, path, body) == Err::<
            RequestView,
            Seq<char>,
        >("unsupported HTTP method: "@ + method),
{
    reveal_strlit("POST");
    reveal_strlit("GET");
    assert("POST"@.len() == 4 && "GET"@.len() == 3);
}

/// A status from 200 to 299 is a success, whose text is read as JSON; any other
/// status, a text that is not JSON, and a reply that did not come are worded with
/// what is known of them.
pub proof fn replies_give_documents_or_messages(status: u16, text: Seq<char>, e: Seq<char>)
    ensures
        outcome(ReplyView::SendFailed(e)) == Err::<JsonView, Seq<char>>(
            "Databricks request failed: "@ + e,
        ),
        outcome(ReplyView::ReadFailed(e)) == Err::<JsonView, Seq<char>>(
            "Databricks response read failed: "@ + e,
        ),
        status / 100 == 2 ==> (json::json_parse(text) matches Ok(v) ==> outcome(
            ReplyView::Answer { status, text },
        ) == Ok::<JsonView, Seq<char>>(v)),
        status / 100 == 2 ==> (json::json_parse(text) matches Err(m) ==> outcome(
            ReplyView::Answer { status, text },
        ) == Err::<JsonView, Seq<char>>(
            "Databricks JSON response parse failed: "@ + m + ": "@ + text,
        )),
        status / 100 != 2 ==> outcome(ReplyView::Answer { status, text }) == Err::<
            JsonView,
            Seq<char>,
        >("Databricks returned HTTP "@ + status_text(status) + ": "@ + text),
{
}

/// What the message about a status says is put behind its wording; and a document
/// that was read is the answer, whatever the text was.
pub proof fn answers_are_worded_with_their_text(
    line: Seq<char>,
    body: Seq<char>,
    v: JsonView,
    e: Seq<char>,
)
    ensures
        status_message(line, body) == "Databricks returned HTTP "@ + line + ": "@ + body,
        document_or_message(Ok(v), body) == Ok::<JsonView, Seq<char>>(v),
        document_or_message(Err(e), body) == Err::<JsonView, Seq<char>>(
            "Databricks JSON response parse failed: "@ + e + ": "@ + body,
        ),
{
}

/// A request and a reply say what their fields hold.
pub proof fn exchanges_say_their_fields(
    request: HttpRequest,
    status: u16,
    text: String,
    document: Json,
)
    ensures
        request@.method == request.method,
        request@.url == request.url@,
        request@.token == request.token@,
        request.body matches Some(body) ==> request@.body == Some(body@),
        request.body is None ==> request@.body is None,
        HttpReply::SendFailed(text)@ == ReplyView::SendFailed(text@),
        HttpReply::ReadFailed(text)@ == ReplyView::ReadFailed(text@),
        (HttpReply::Answer { status, text })@ == (ReplyView::Answer { status, text: text@ }),
        said(Ok(document)) == Ok::<JsonView, Seq<char>>(document@),
        said(Err(text)) == Err::<JsonView, Seq<char>>(text@),
{
}

} // verus!
