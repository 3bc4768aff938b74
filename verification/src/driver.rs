//! The calls of the connector, and its open connections.

use crate::config;
use crate::config::{ConfigView, DatabricksConfig};
use crate::http;
use crate::json;
use crate::json::{Json, JsonView};
use crate::queries;
use crate::rows;
use crate::rows::{OutputView, QueryOutput};
use crate::secrets;
use crate::text;
use vstd::hash_map::StringHashMap;
use vstd::prelude::*;

verus! {

// ------------------------------------------------------------------ responses

/// The answer to a call: the members of an object, an error with a code, or a text
/// as it is.
#[derive(Debug, PartialEq, Eq)]
pub enum Response {
    Fields(Vec<(String, Json)>),
    Error { code: String, message: String },
    Raw(String),
}

/// What an answer says.
pub enum ResponseView {
    Fields(Map<Seq<char>, JsonView>),
    Error { code: Seq<char>, message: Seq<char> },
    Raw(Seq<char>),
}

impl View for Response {
    type V = ResponseView;

    open spec fn view(&self) -> ResponseView {
        match self {
            Response::Fields(f) => ResponseView::Fields(json::members(f@)),
            Response::Error { code, message } => ResponseView::Error {
                code: code@,
                message: message@,
            },
            Response::Raw(s) => ResponseView::Raw(s@),
        }
    }
}

/// Makes an error answer.
fn error(code: &str, message: String) -> (r: Response)
    ensures
        r@ == (ResponseView::Error { code: code@, message: message@ }),
{
    Response::Error { code: code.to_string(), message }
}

/// The answer when the table of connections cannot be used any more.
pub open spec fn poisoned() -> ResponseView {
    ResponseView::Error {
        code: "connector.statePoisoned"@,
        message: "Connector connection state is poisoned."@,
    }
}

/// Answers that the table of connections cannot be used any more.
pub fn state_poisoned() -> (r: Response)
    ensures
        r@ == poisoned(),
{
    error("connector.statePoisoned", "Connector connection state is poisoned.".to_string())
}

// ------------------------------------------------------------------- dispatch

/// What the connector says of itself.
pub struct ConnectorInfo {
    pub engine: String,
    pub abi_version: Json,
    pub driver_linked: bool,
    pub manifest_json: String,
    pub config_json: String,
}

/// The texts of what the connector says of itself.
pub struct InfoView {
    pub engine: Seq<char>,
    pub abi_version: JsonView,
    pub driver_linked: bool,
    pub manifest_json: Seq<char>,
    pub config_json: Seq<char>,
}

impl View for ConnectorInfo {
    type V = InfoView;

    open spec fn view(&self) -> InfoView {
        InfoView {
            engine: self.engine@,
            abi_version: self.abi_version@,
            driver_linked: self.driver_linked,
            manifest_json: self.manifest_json@,
            config_json: self.config_json@,
        }
    }
}

/// What a call leads to: an answer at once, or work on a request.
#[derive(Debug, PartialEq, Eq)]
pub enum Dispatch {
    Reply(Response),
    Connect(Json),
    Query(Json),
    Metadata(Json),
    Close(Json),
}

/// What a dispatched call says.
pub enum DispatchView {
    Reply(ResponseView),
    Connect(JsonView),
    Query(JsonView),
    Metadata(JsonView),
    Close(JsonView),
}

impl View for Dispatch {
    type V = DispatchView;

    open spec fn view(&self) -> DispatchView {
        match self {
            Dispatch::Reply(r) => DispatchView::Reply(r@),
            Dispatch::Connect(j) => DispatchView::Connect(j@),
            Dispatch::Query(j) => DispatchView::Query(j@),
            Dispatch::Metadata(j) => DispatchView::Metadata(j@),
            Dispatch::Close(j) => DispatchView::Close(j@),
        }
    }
}

/// The answer to a health check.
pub open spec fn health_fields(info: InfoView) -> Map<Seq<char>, JsonView> {
    Map::<Seq<char>, JsonView>::empty().insert("engine"@, JsonView::Text(info.engine)).insert(
        "abiVersion"@,
        info.abi_version,
    ).insert("driverLinked"@, JsonView::Bool(info.driver_linked))
}

/// The answer to a request for a description, with the documents of the manifest
/// and of the configuration.
pub open spec fn describe_fields(info: InfoView, manifest: JsonView, config: JsonView) -> Map<
    Seq<char>,
    JsonView,
> {
    health_fields(info).insert("manifest"@, manifest).insert("config"@, config)
}

/// The document that was read, or null.
pub open spec fn or_null(parsed: Result<JsonView, Seq<char>>) -> JsonView {
    match parsed {
        Ok(v) => v,
        Err(_) => JsonView::Null,
    }
}

/// Lists the answer to a health check.
fn health(info: &ConnectorInfo) -> (r: Vec<(String, Json)>)
    ensures
        json::members(r@) == health_fields(info@),
{
    let mut out: Vec<(String, Json)> = Vec::new();
    json::put_text(&mut out, "engine", info.engine.as_str());
    json::put(&mut out, "abiVersion", info.abi_version.clone());
    json::put(&mut out, "driverLinked", Json::Bool(info.driver_linked));
    out
}

/// Answers a request for a description, given what was read in the manifest and in
/// the configuration.
pub fn describe(
    info: &ConnectorInfo,
    manifest: Result<Json, String>,
    config: Result<Json, String>,
) -> (r: Response)
    ensures
        r@ == ResponseView::Fields(
            describe_fields(
                info@,
                or_null(http::said(manifest)),
                or_null(http::said(config)),
            ),
        ),
{
    let mut out: Vec<(String, Json)> = health(info);
    json::put(
        &mut out,
        "manifest",
        match manifest {
            Ok(v) => v,
            Err(_) => Json::Null,
        },
    );
    json::put(
        &mut out,
        "config",
        match config {
            Ok(v) => v,
            Err(_) => Json::Null,
        },
    );
    Response::Fields(out)
}

/// Whether a method works on a request.
pub open spec fn needs_request(method: Seq<char>) -> bool {
    method == "connect"@ || method == "query"@ || method == "metadata"@ || method == "close"@
}

/// What a call of `method` leads to.
pub open spec fn dispatched(
    info: InfoView,
    method: Seq<char>,
    request: Option<JsonView>,
) -> DispatchView {
    if method == "health"@ || method == "ping"@ {
        DispatchView::Reply(ResponseView::Fields(health_fields(info)))
    } else if method == "describe"@ || method == "capabilities"@ {
        DispatchView::Reply(
            ResponseView::Fields(
                describe_fields(
                    info,
                    or_null(json::json_parse(info.manifest_json)),
                    or_null(json::json_parse(info.config_json)),
                ),
            ),
        )
    } else if method == "manifest"@ {
        DispatchView::Reply(ResponseView::Raw(info.manifest_json))
    } else if method == "config"@ {
        DispatchView::Reply(ResponseView::Raw(info.config_json))
    } else if method == "connect"@ {
        DispatchView::Connect(request->0)
    } else if method == "query"@ {
        DispatchView::Query(request->0)
    } else if method == "metadata"@ {
        DispatchView::Metadata(request->0)
    } else if method == "close"@ {
        DispatchView::Close(request->0)
    } else {
        DispatchView::Reply(
            ResponseView::Error {
                code: "connector.unknownMethod"@,
                message: "unknown connector method: "@ + method,
            },
        )
    }
}

/// Answers a call, or says what work its request asks for.
pub fn call_json(info: &ConnectorInfo, method: &str, request: Option<Json>) -> (r: Dispatch)
    requires
        needs_request(method@) ==> request is Some,
    ensures
        r@ == dispatched(info@, method@, http::optional_document(request)),
{
    if text::same_text(method, "health") || text::same_text(method, "ping") {
        return Dispatch::Reply(Response::Fields(health(info)));
    }
    if text::same_text(method, "describe") || text::same_text(method, "capabilities") {
        let manifest: Result<Json, String> = Json::parse(info.manifest_json.as_str());
        let config: Result<Json, String> = Json::parse(info.config_json.as_str());
        return Dispatch::Reply(describe(info, manifest, config));
    }
    if text::same_text(method, "manifest") {
        return Dispatch::Reply(Response::Raw(info.manifest_json.clone()));
    }
    if text::same_text(method, "config") {
        return Dispatch::Reply(Response::Raw(info.config_json.clone()));
    }
    if text::same_text(method, "connect") {
        return Dispatch::Connect(request.unwrap());
    }
    if text::same_text(method, "query") {
        return Dispatch::Query(request.unwrap());
    }
    if text::same_text(method, "metadata") {
        return Dispatch::Metadata(request.unwrap());
    }
    if text::same_text(method, "close") {
        return Dispatch::Close(request.unwrap());
    }
    Dispatch::Reply(
        error("connector.unknownMethod", text::join("unknown connector method: ", method)),
    )
}

// ---------------------------------------------------------------- connections

/// The open connections, by their ids.
pub struct Connections {
    open: StringHashMap<DatabricksConfig>,
}

impl View for Connections {
    type V = Map<Seq<char>, ConfigView>;

    closed spec fn view(&self) -> Map<Seq<char>, ConfigView> {
        self.open@.map_values(|c: DatabricksConfig| c@)
    }
}

/// The connection `id`, or the answer that it is not open.
pub open spec fn connection_in(open: Map<Seq<char>, ConfigView>, id: Seq<char>) -> Result<
    ConfigView,
    ResponseView,
> {
    if open.contains_key(id) {
        Ok(open[id])
    } else {
        Err(
            ResponseView::Error {
                code: "connector.connectionNotFound"@,
                message: "no open connection: "@ + id,
            },
        )
    }
}

/// The answer to a connect request that was served.
pub open spec fn connected_fields(
    info: InfoView,
    id: Seq<char>,
    config: ConfigView,
    version: Seq<char>,
) -> Map<Seq<char>, JsonView> {
    Map::<Seq<char>, JsonView>::empty().insert("engine"@, JsonView::Text(info.engine)).insert(
        "connectionId"@,
        JsonView::Text(id),
    ).insert("driverLinked"@, JsonView::Bool(info.driver_linked)).insert(
        "endpoint"@,
        JsonView::Text(config.base_url),
    ).insert("warehouseId"@, JsonView::Text(config.warehouse_id)).insert(
        "serverVersion"@,
        JsonView::Text(version),
    )
}

/// The answer to a close request.
pub open spec fn closed_fields(open: Map<Seq<char>, ConfigView>, id: Seq<char>) -> Map<
    Seq<char>,
    JsonView,
> {
    Map::<Seq<char>, JsonView>::empty().insert("connectionId"@, JsonView::Text(id)).insert(
        "closed"@,
        JsonView::Bool(open.contains_key(id)),
    )
}

impl Connections {
    /// No connections.
    pub fn new() -> (r: Connections)
        ensures
            r@ == Map::<Seq<char>, ConfigView>::empty(),
    {
        let r: Connections = Connections { open: StringHashMap::new() };
        assert(r@ =~= Map::<Seq<char>, ConfigView>::empty());
        r
    }

    /// The configuration of an open connection.
    pub fn connection(&self, id: &str) -> (r: Result<DatabricksConfig, Response>)
        ensures
            match r {
                Ok(config) => connection_in(self@, id@) == Ok::<ConfigView, ResponseView>(config@),
                Err(response) => connection_in(self@, id@) == Err::<ConfigView, ResponseView>(
                    response@,
                ),
            },
    {
        match self.open.get(id) {
            Some(config) => Ok(config.clone()),
            None => Err(
                error("connector.connectionNotFound", text::join("no open connection: ", id)),
            ),
        }
    }

    /// Opens a connection whose server said its version, in place of one with the
    /// same id.
    pub fn connect(
        &mut self,
        info: &ConnectorInfo,
        id: String,
        config: DatabricksConfig,
        version: String,
    ) -> (r: Response)
        ensures
            final(self)@ == old(self)@.insert(id@, config@),
            r@ == ResponseView::Fields(connected_fields(info@, id@, config@, version@)),
    {
        let mut out: Vec<(String, Json)> = Vec::new();
        json::put_text(&mut out, "engine", info.engine.as_str());
        json::put_text(&mut out, "connectionId", id.as_str());
        json::put(&mut out, "driverLinked", Json::Bool(info.driver_linked));
        json::put_text(&mut out, "endpoint", config.base_url.as_str());
        json::put_text(&mut out, "warehouseId", config.warehouse_id.as_str());
        json::put(&mut out, "serverVersion", Json::Text(version));
        let ghost key = id@;
        let ghost value = config@;
        self.open.insert(id, config);
        assert(self@ =~= old(self)@.insert(key, value));
        Response::Fields(out)
    }

    /// Closes a connection, and says whether it was open.
    pub fn close(&mut self, id: String) -> (r: Response)
        ensures
            final(self)@ == old(self)@.remove(id@),
            r@ == ResponseView::Fields(closed_fields(old(self)@, id@)),
    {
        let existed: bool = self.open.contains_key(id.as_str());
        self.open.remove(id.as_str());
        assert(self@ =~= old(self)@.remove(id@));
        let mut out: Vec<(String, Json)> = Vec::new();
        json::put(&mut out, "connectionId", Json::Text(id));
        json::put(&mut out, "closed", Json::Bool(existed));
        Response::Fields(out)
    }
}

// ------------------------------------------------------ work on a connection

/// The answer when work on a connection came to nothing: the message is shown as
/// the connection allows.
pub open spec fn failure(code: Seq<char>, config: ConfigView, message: Seq<char>) -> ResponseView {
    ResponseView::Error { code, message: config.shown(message) }
}

/// Reads the configuration of a connect request, or answers what it lacks.
pub fn begin_connect(request: &Json) -> (r: Result<DatabricksConfig, Response>)
    ensures
        match r {
            Ok(c) => config::configured(request@) == Ok::<ConfigView, Seq<char>>(c@),
            Err(response) => config::configured(request@) matches Err(message) && response@ == (
            ResponseView::Error { code: "connector.invalidRequest"@, message }),
        },
{
    match DatabricksConfig::from_request(request) {
        Ok(config) => Ok(config),
        Err(message) => Err(error("connector.invalidRequest", message)),
    }
}

/// Answers that the version of the server could not be had.
pub fn connect_failed(config: &DatabricksConfig, message: &str) -> (r: Response)
    ensures
        r@ == failure("connector.connectFailed"@, config@, message@),
{
    error("connector.connectFailed", config.redact(message))
}

/// What the version query of a new connection leads to: the name of its server, or
/// the answer that it could not be had.
pub open spec fn version_outcome(
    config: ConfigView,
    outcome: Result<OutputView, Seq<char>>,
) -> Result<Seq<char>, ResponseView> {
    match outcome {
        Ok(output) => Ok(queries::server_name(output.rows)),
        Err(message) => Err(failure("connector.connectFailed"@, config, message)),
    }
}

/// Names the server of a new connection by what its version query gave, or answers
/// that it could not be had.
pub fn connected_version(
    config: &DatabricksConfig,
    outcome: Result<QueryOutput, String>,
) -> (r: Result<String, Response>)
    ensures
        match r {
            Ok(version) => version_outcome(config@, queries::output_said(outcome)) == Ok::<
                Seq<char>,
                ResponseView,
            >(version@),
            Err(response) => version_outcome(config@, queries::output_said(outcome)) == Err::<
                Seq<char>,
                ResponseView,
            >(response@),
        },
{
    match outcome {
        Ok(output) => Ok(queries::version_from_rows(&output.rows)),
        Err(message) => Err(connect_failed(config, message.as_str())),
    }
}

/// The statement of a query request, given its fields `sql`, `query` and
/// `statement` where they are strings.
pub open spec fn statement_of(
    sql: Option<Seq<char>>,
    query: Option<Seq<char>>,
    statement: Option<Seq<char>>,
) -> Option<Seq<char>> {
    config::either(sql, config::either(query, statement))
}

/// Picks the statement of a query request, or answers that it has none.
pub fn query_statement(
    sql: Option<String>,
    query: Option<String>,
    statement: Option<String>,
) -> (r: Result<String, Response>)
    ensures
        match r {
            Ok(s) => statement_of(
                config::optional(sql),
                config::optional(query),
                config::optional(statement),
            ) == Some(s@),
            Err(response) => statement_of(
                config::optional(sql),
                config::optional(query),
                config::optional(statement),
            ) is None && response@ == (ResponseView::Error {
                code: "connector.invalidRequest"@,
                message: "query requires a string sql, query, or statement field."@,
            }),
        },
{
    match sql {
        Some(s) => Ok(s),
        None => match query {
            Some(s) => Ok(s),
            None => match statement {
                Some(s) => Ok(s),
                None => Err(
                    error(
                        "connector.invalidRequest",
                        "query requires a string sql, query, or statement field.".to_string(),
                    ),
                ),
            },
        },
    }
}

/// The documents of a list of texts.
pub open spec fn text_documents(s: Seq<Seq<char>>) -> Seq<JsonView> {
    Seq::new(s.len(), |i: int| JsonView::Text(s[i]))
}

/// The documents of a list of rows.
pub open spec fn row_documents(s: Seq<Seq<JsonView>>) -> Seq<JsonView> {
    Seq::new(s.len(), |i: int| JsonView::Array(s[i]))
}

/// The answer to a query that gave `output`.
pub open spec fn query_fields(id: Seq<char>, output: OutputView) -> Map<Seq<char>, JsonView> {
    Map::<Seq<char>, JsonView>::empty().insert("connectionId"@, JsonView::Text(id)).insert(
        "columns"@,
        JsonView::Array(text_documents(output.columns)),
    ).insert("rows"@, JsonView::Array(row_documents(output.rows))).insert(
        "truncated"@,
        JsonView::Bool(output.truncated),
    )
}

/// What a query is answered.
pub open spec fn query_response(
    id: Seq<char>,
    config: ConfigView,
    outcome: Result<OutputView, Seq<char>>,
) -> ResponseView {
    match outcome {
        Ok(output) => ResponseView::Fields(query_fields(id, output)),
        Err(message) => failure("connector.queryFailed"@, config, message),
    }
}

/// Writes a list of texts.
fn texts_to_json(texts: Vec<String>) -> (r: Json)
    ensures
        r@ == JsonView::Array(text_documents(secrets::texts(texts@))),
{
    let ghost all = texts@;
    let ghost said = text_documents(secrets::texts(all));
    let mut out: Vec<Json> = Vec::new();
    assert(json::documents(out@) =~= said.take(0));
    for t in it: texts
        invariant
            it.seq() == all,
            said == text_documents(secrets::texts(all)),
            json::documents(out@) == said.take(it.index() as int),
    {
        let ghost i = it.index() as int;
        let item: Json = Json::Text(t);
        proof {
            assert(out@.push(item).drop_last() =~= out@);
            assert(item@ == said[i]);
            assert(said.take(i + 1) =~= said.take(i).push(said[i]));
        }
        out.push(item);
    }
    assert(said.take(all.len() as int) =~= said);
    Json::Array(out)
}

/// Writes a list of rows.
fn rows_to_json(rows: Vec<Vec<Json>>) -> (r: Json)
    ensures
        r@ == JsonView::Array(row_documents(rows::cells(rows@))),
{
    let ghost all = rows@;
    let ghost said = row_documents(rows::cells(all));
    let mut out: Vec<Json> = Vec::new();
    assert(json::documents(out@) =~= said.take(0));
    for row in it: rows
        invariant
            it.seq() == all,
            said == row_documents(rows::cells(all)),
            json::documents(out@) == said.take(it.index() as int),
    {
        let ghost i = it.index() as int;
        let item: Json = Json::Array(row);
        proof {
            assert(out@.push(item).drop_last() =~= out@);
            assert(item@ == said[i]);
            assert(said.take(i + 1) =~= said.take(i).push(said[i]));
        }
        out.push(item);
    }
    assert(said.take(all.len() as int) =~= said);
    Json::Array(out)
}

/// Answers a query.
pub fn finish_query(
    id: String,
    config: &DatabricksConfig,
    outcome: Result<QueryOutput, String>,
) -> (r: Response)
    ensures
        r@ == query_response(id@, config@, queries::output_said(outcome)),
{
    match outcome {
        Ok(output) => {
            let mut out: Vec<(String, Json)> = Vec::new();
            json::put(&mut out, "connectionId", Json::Text(id));
            json::put(&mut out, "columns", texts_to_json(output.columns));
            json::put(&mut out, "rows", rows_to_json(output.rows));
            json::put(&mut out, "truncated", Json::Bool(output.truncated));
            Response::Fields(out)
        },
        Err(message) => error("connector.queryFailed", config.redact(message.as_str())),
    }
}

/// What a metadata request is answered.
pub open spec fn metadata_response(
    id: Seq<char>,
    config: ConfigView,
    outcome: Result<JsonView, Seq<char>>,
) -> ResponseView {
    match outcome {
        Ok(metadata) => ResponseView::Fields(
            Map::<Seq<char>, JsonView>::empty().insert("connectionId"@, JsonView::Text(id)).insert(
                "metadata"@,
                metadata,
            ),
        ),
        Err(message) => failure("connector.metadataFailed"@, config, message),
    }
}

/// Answers a metadata request.
pub fn finish_metadata(
    id: String,
    config: &DatabricksConfig,
    outcome: Result<Json, String>,
) -> (r: Response)
    ensures
        r@ == metadata_response(id@, config@, http::said(outcome)),
{
    match outcome {
        Ok(metadata) => {
            let mut out: Vec<(String, Json)> = Vec::new();
            json::put(&mut out, "connectionId", Json::Text(id));
            json::put(&mut out, "metadata", metadata);
            Response::Fields(out)
        },
        Err(message) => error("connector.metadataFailed", config.redact(message.as_str())),
    }
}

// --------------------------------------------------------------------- laws

/// A connection that was opened is found, with the configuration it was opened
/// with, and the others stay as they were.
pub proof fn opened_connections_are_found(
    open: Map<Seq<char>, ConfigView>,
    id: Seq<char>,
    config: ConfigView,
    other: Seq<char>,
)
    ensures
        connection_in(open.insert(id, config), id) == Ok::<ConfigView, ResponseView>(config),
        other != id ==> connection_in(open.insert(id, config), other) == connection_in(open, other),
{
}

/// A connection that was closed is not found, the others stay as they were, and
/// closing it again answers that it was not open.
pub proof fn closed_connections_are_gone(
    open: Map<Seq<char>, ConfigView>,
    id: Seq<char>,
    other: Seq<char>,
)
    ensures
        connection_in(open.remove(id), id) is Err,
        other != id ==> connection_in(open.remove(id), other) == connection_in(open, other),
        closed_fields(open.remove(id), id)["closed"@] == JsonView::Bool(false),
{
}

/// Closing what was just opened answers that it was open, and leaves the table as
/// it was where the id was new.
pub proof fn closing_undoes_opening(
    open: Map<Seq<char>, ConfigView>,
    id: Seq<char>,
    config: ConfigView,
)
    ensures
        closed_fields(open.insert(id, config), id)["closed"@] == JsonView::Bool(true),
        !open.contains_key(id) ==> open.insert(id, config).remove(id) == open,
{
    if !open.contains_key(id) {
        assert(open.insert(id, config).remove(id) =~= open);
    }
}

/// No answer about failed work on a configured connection contains its token,
/// where the token is clear of the mask.
pub proof fn failures_hide_the_token(
    request: JsonView,
    code: Seq<char>,
    message: Seq<char>,
)
    requires
        config::configured(request) matches Ok(c) && text::clear_of(c.token, "****"@),
    ensures
        config::configured(request) matches Ok(c) ==> (failure(code, c, message) matches
            ResponseView::Error { message: shown, .. } && !text::occurs(shown, c.token)),
{
    config::shown_messages_hide_the_token(request, message);
}

/// An answer says what it holds, a call what it leads to, and the connector what its
/// fields are.
pub proof fn answers_say_what_they_hold(
    fields: Vec<(String, Json)>,
    code: String,
    message: String,
    response: Response,
    request: Json,
    info: ConnectorInfo,
)
    ensures
        Response::Fields(fields)@ == ResponseView::Fields(json::members(fields@)),
        (Response::Error { code, message })@ == (ResponseView::Error {
            code: code@,
            message: message@,
        }),
        Response::Raw(message)@ == ResponseView::Raw(message@),
        Dispatch::Reply(response)@ == DispatchView::Reply(response@),
        Dispatch::Connect(request)@ == DispatchView::Connect(request@),
        Dispatch::Query(request)@ == DispatchView::Query(request@),
        Dispatch::Metadata(request)@ == DispatchView::Metadata(request@),
        Dispatch::Close(request)@ == DispatchView::Close(request@),
        info@.engine == info.engine@,
        info@.abi_version == info.abi_version@,
        info@.driver_linked == info.driver_linked,
        info@.manifest_json == info.manifest_json@,
        info@.config_json == info.config_json@,
{
}

/// A query is answered with its connection, the columns and rows of its output in
/// their order and cell for cell, and as truncated exactly where the output is; and
/// with nothing else. Where it failed, the code says so and the message is shown as
/// the connection allows.
pub proof fn queries_are_answered_with_their_output(
    id: Seq<char>,
    config: ConfigView,
    output: OutputView,
    message: Seq<char>,
)
    ensures
        query_response(id, config, Ok(output)) matches ResponseView::Fields(m) && {
            &&& m.contains_key("connectionId"@) && m["connectionId"@] == JsonView::Text(id)
            &&& m.contains_key("truncated"@) && m["truncated"@] == JsonView::Bool(output.truncated)
            &&& m.contains_key("columns"@)
            &&& (m["columns"@] matches JsonView::Array(columns) && columns.len()
                == output.columns.len() && forall|i: int|
                0 <= i < columns.len() ==> #[trigger] columns[i] == JsonView::Text(
                    output.columns[i],
                ))
            &&& m.contains_key("rows"@)
            &&& (m["rows"@] matches JsonView::Array(rows) && rows.len() == output.rows.len()
                && forall|k: int|
                0 <= k < rows.len() ==> #[trigger] rows[k] == JsonView::Array(output.rows[k]))
            &&& forall|k: Seq<char>| #[trigger]
                m.contains_key(k) ==> k == "connectionId"@ || k == "columns"@ || k == "rows"@ || k
                    == "truncated"@
        },
        query_response(id, config, Err(message)) == (ResponseView::Error {
            code: "connector.queryFailed"@,
            message: config.shown(message),
        }),
{
    reveal_strlit("connectionId");
    reveal_strlit("columns");
    reveal_strlit("rows");
    reveal_strlit("truncated");
    assert("connectionId"@.len() == 12 && "columns"@.len() == 7 && "rows"@.len() == 4
        && "truncated"@.len() == 9);
}

/// From the response of a statement to the answer of its query: the answer is not
/// truncated exactly where neither the response says so nor a row is left out.
pub proof fn complete_results_are_not_truncated(
    id: Seq<char>,
    config: ConfigView,
    first: JsonView,
    chunks: Seq<JsonView>,
    cap: nat,
)
    ensures
        query_response(id, config, Ok(rows::collected(first, chunks, cap))) matches
            ResponseView::Fields(m) && m.contains_key("truncated"@) && (m["truncated"@]
            == JsonView::Bool(false) <==> rows::all_rows(chunks).len() <= cap && first.at(
            seq!["manifest"@, "truncated"@],
        ) != Some(JsonView::Bool(true))),
{
    rows::collecting_keeps_the_first_rows(first, chunks, cap);
    rows::results_start_with_their_columns(first, Seq::empty());
    queries_are_answered_with_their_output(
        id,
        config,
        rows::collected(first, chunks, cap),
        Seq::empty(),
    );
}

/// A metadata request is answered with its connection and the catalog, and with
/// nothing else; where it failed, the code says so and the message is shown as the
/// connection allows.
pub proof fn metadata_is_answered_with_the_catalog(
    id: Seq<char>,
    config: ConfigView,
    metadata: JsonView,
    message: Seq<char>,
)
    ensures
        metadata_response(id, config, Ok(metadata)) matches ResponseView::Fields(m) && {
            &&& m.contains_key("connectionId"@) && m["connectionId"@] == JsonView::Text(id)
            &&& m.contains_key("metadata"@) && m["metadata"@] == metadata
            &&& forall|k: Seq<char>| #[trigger]
                m.contains_key(k) ==> k == "connectionId"@ || k == "metadata"@
        },
        metadata_response(id, config, Err(message)) == (ResponseView::Error {
            code: "connector.metadataFailed"@,
            message: config.shown(message),
        }),
{
    reveal_strlit("connectionId");
    reveal_strlit("metadata");
    assert("connectionId"@.len() == 12 && "metadata"@.len() == 8);
}

/// A connection that was opened is answered with the engine, the connection, its
/// endpoint and warehouse, the version of its server, and nothing else.
pub proof fn connections_are_answered_with_their_endpoint(
    info: InfoView,
    id: Seq<char>,
    config: ConfigView,
    version: Seq<char>,
)
    ensures
        ({
            let m = connected_fields(info, id, config, version);
            &&& m.contains_key("engine"@) && m["engine"@] == JsonView::Text(info.engine)
            &&& m.contains_key("connectionId"@) && m["connectionId"@] == JsonView::Text(id)
            &&& m.contains_key("driverLinked"@) && m["driverLinked"@] == JsonView::Bool(
                info.driver_linked,
            )
            &&& m.contains_key("endpoint"@) && m["endpoint"@] == JsonView::Text(config.base_url)
            &&& m.contains_key("warehouseId"@) && m["warehouseId"@] == JsonView::Text(
                config.warehouse_id,
            )
            &&& m.contains_key("serverVersion"@) && m["serverVersion"@] == JsonView::Text(version)
            &&& forall|k: Seq<char>| #[trigger]
                m.contains_key(k) ==> k == "engine"@ || k == "connectionId"@ || k
                    == "driverLinked"@ || k == "endpoint"@ || k == "warehouseId"@ || k
                    == "serverVersion"@
        }),
{
    reveal_strlit("engine");
    reveal_strlit("connectionId");
    reveal_strlit("driverLinked");
    reveal_strlit("endpoint");
    reveal_strlit("warehouseId");
    reveal_strlit("serverVersion");
    assert("engine"@.len() == 6 && "endpoint"@.len() == 8 && "warehouseId"@.len() == 11
        && "serverVersion"@.len() == 13);
    assert("connectionId"@.len() == 12 && "connectionId"@[0] == 'c');
    assert("driverLinked"@.len() == 12 && "driverLinked"@[0] == 'd');
}

/// Closing is answered with the connection and whether it was open, and nothing else.
pub proof fn closing_says_what_was_open(open: Map<Seq<char>, ConfigView>, id: Seq<char>)
    ensures
        ({
            let m = closed_fields(open, id);
            &&& m.contains_key("connectionId"@) && m["connectionId"@] == JsonView::Text(id)
            &&& m.contains_key("closed"@) && m["closed"@] == JsonView::Bool(open.contains_key(id))
            &&& forall|k: Seq<char>| #[trigger]
                m.contains_key(k) ==> k == "connectionId"@ || k == "closed"@
        }),
{
    reveal_strlit("connectionId");
    reveal_strlit("closed");
    assert("connectionId"@.len() == 12 && "closed"@.len() == 6);
}

/// A connection that is not open is answered by its id, and a table that cannot be
/// used any more with a code of its own.
pub proof fn missing_connections_are_named(open: Map<Seq<char>, ConfigView>, id: Seq<char>)
    ensures
        open.contains_key(id) ==> connection_in(open, id) == Ok::<ConfigView, ResponseView>(
            open[id],
        ),
        !open.contains_key(id) ==> connection_in(open, id) == Err::<ConfigView, ResponseView>(
            ResponseView::Error {
                code: "connector.connectionNotFound"@,
                message: "no open connection: "@ + id,
            },
        ),
        poisoned() == (ResponseView::Error {
            code: "connector.statePoisoned"@,
            message: "Connector connection state is poisoned."@,
        }),
{
}

/// A failure keeps its code, and its message is shown as the connection allows.
pub proof fn failures_are_shown_masked(code: Seq<char>, config: ConfigView, message: Seq<char>)
    ensures
        failure(code, config, message) == (ResponseView::Error {
            code,
            message: secrets::redacted(message, config.base_url, config.redaction_values),
        }),
{
}

/// A new connection is opened under the name of its server where the version query
/// gave rows, and else answered with its failure.
pub proof fn versions_open_connections(
    config: ConfigView,
    output: OutputView,
    message: Seq<char>,
)
    ensures
        version_outcome(config, Ok(output)) == Ok::<Seq<char>, ResponseView>(
            queries::server_name(output.rows),
        ),
        version_outcome(config, Err(message)) == Err::<Seq<char>, ResponseView>(
            ResponseView::Error {
                code: "connector.connectFailed"@,
                message: config.shown(message),
            },
        ),
{
}

/// The statement of a query is its `sql`, or else its `query`, or else its
/// `statement`.
pub proof fn statements_are_picked_in_order(
    sql: Option<Seq<char>>,
    query: Option<Seq<char>>,
    statement: Option<Seq<char>>,
)
    ensures
        sql is Some ==> statement_of(sql, query, statement) == sql,
        sql is None && query is Some ==> statement_of(sql, query, statement) == query,
        sql is None && query is None ==> statement_of(sql, query, statement) == statement,
{
}

/// A health check is answered with the engine, its ABI version and whether its driver
/// is linked; a description adds the manifest and the configuration, null where they
/// are no JSON.
pub proof fn the_connector_describes_itself(
    info: InfoView,
    manifest: Result<JsonView, Seq<char>>,
    config: Result<JsonView, Seq<char>>,
)
    ensures
        ({
            let m = health_fields(info);
            &&& m.contains_key("engine"@) && m["engine"@] == JsonView::Text(info.engine)
            &&& m.contains_key("abiVersion"@) && m["abiVersion"@] == info.abi_version
            &&& m.contains_key("driverLinked"@) && m["driverLinked"@] == JsonView::Bool(
                info.driver_linked,
            )
            &&& forall|k: Seq<char>| #[trigger]
                m.contains_key(k) ==> k == "engine"@ || k == "abiVersion"@ || k == "driverLinked"@
        }),
        ({
            let m = describe_fields(info, or_null(manifest), or_null(config));
            &&& m.contains_key("engine"@) && m["engine"@] == JsonView::Text(info.engine)
            &&& m.contains_key("abiVersion"@) && m["abiVersion"@] == info.abi_version
            &&& m.contains_key("driverLinked"@) && m["driverLinked"@] == JsonView::Bool(
                info.driver_linked,
            )
            &&& m.contains_key("manifest"@) && m.contains_key("config"@)
            &&& (manifest matches Ok(v) ==> m["manifest"@] == v)
            &&& (manifest is Err ==> m["manifest"@] is Null)
            &&& (config matches Ok(v) ==> m["config"@] == v)
            &&& (config is Err ==> m["config"@] is Null)
            &&& forall|k: Seq<char>| #[trigger]
                m.contains_key(k) ==> k == "engine"@ || k == "abiVersion"@ || k == "driverLinked"@
                    || k == "manifest"@ || k == "config"@
        }),
{
    reveal_strlit("engine");
    reveal_strlit("abiVersion");
    reveal_strlit("driverLinked");
    reveal_strlit("manifest");
    reveal_strlit("config");
    assert("abiVersion"@.len() == 10 && "driverLinked"@.len() == 12 && "manifest"@.len() == 8);
    assert("engine"@.len() == 6 && "engine"@[0] == 'e');
    assert("config"@.len() == 6 && "config"@[0] == 'c');
}

/// Each method leads to its own work: health checks and descriptions are answered, the
/// manifest and the configuration are given as they are, the work on connections is
/// handed its request unchanged, and any other method is refused by name.
pub proof fn methods_lead_to_their_work(
    info: InfoView,
    method: Seq<char>,
    request: JsonView,
)
    ensures
        ({
            let led = dispatched(info, method, Some(request));
            let described = ResponseView::Fields(
                describe_fields(
                    info,
                    or_null(json::json_parse(info.manifest_json)),
                    or_null(json::json_parse(info.config_json)),
                ),
            );
            &&& method == "health"@ || method == "ping"@ ==> led == DispatchView::Reply(
                ResponseView::Fields(health_fields(info)),
            )
            &&& method == "describe"@ || method == "capabilities"@ ==> led == DispatchView::Reply(
                described,
            )
            &&& method == "manifest"@ ==> led == DispatchView::Reply(
                ResponseView::Raw(info.manifest_json),
            )
            &&& method == "config"@ ==> led == DispatchView::Reply(
                ResponseView::Raw(info.config_json),
            )
            &&& method == "connect"@ ==> led == DispatchView::Connect(request)
            &&& method == "query"@ ==> led == DispatchView::Query(request)
            &&& method == "metadata"@ ==> led == DispatchView::Metadata(request)
            &&& method == "close"@ ==> led == DispatchView::Close(request)
            &&& method != "health"@ && method != "ping"@ && method != "describe"@ && method
                != "capabilities"@ && method != "manifest"@ && method != "config"@ && method
                != "connect"@ && method != "query"@ && method != "metadata"@ && method != "close"@
                ==> led == DispatchView::Reply(
                ResponseView::Error {
                    code: "connector.unknownMethod"@,
                    message: "unknown connector method: "@ + method,
                },
            )
        }),
        needs_request(method) <==> method == "connect"@ || method == "query"@ || method
            == "metadata"@ || method == "close"@,
        !needs_request(method) ==> dispatched(info, method, None) == dispatched(
            info,
            method,
            Some(request),
        ),
{
    reveal_strlit("health");
    reveal_strlit("ping");
    reveal_strlit("describe");
    reveal_strlit("capabilities");
    reveal_strlit("manifest");
    reveal_strlit("config");
    reveal_strlit("connect");
    reveal_strlit("query");
    reveal_strlit("metadata");
    reveal_strlit("close");
    assert("ping"@.len() == 4 && "capabilities"@.len() == 12 && "connect"@.len() == 7);
    assert("health"@.len() == 6 && "health"@[0] == 'h');
    assert("config"@.len() == 6 && "config"@[0] == 'c');
    assert("describe"@.len() == 8 && "describe"@[0] == 'd');
    assert("manifest"@.len() == 8 && "manifest"@[1] == 'a' && "manifest"@[0] == 'm');
    assert("metadata"@.len() == 8 && "metadata"@[1] == 'e' && "metadata"@[0] == 'm');
    assert("query"@.len() == 5 && "query"@[0] == 'q');
    assert("close"@.len() == 5 && "close"@[0] == 'c');
}

} // verus!
