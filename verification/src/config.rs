//! The configuration of a connection, read out of a connect request.

use crate::jdbc;
use crate::json;
use crate::json::{Json, JsonView};
use crate::secrets;
use crate::settings;
use crate::text;
use crate::url;
use vstd::prelude::*;

verus! {

/// What a connection to a SQL warehouse needs, and what its messages must hide.
#[derive(Debug, PartialEq, Eq)]
pub struct DatabricksConfig {
    pub base_url: String,
    pub warehouse_id: String,
    pub token: String,
    pub catalog: Option<String>,
    pub schema: Option<String>,
    pub redaction_values: Vec<String>,
}

/// The texts of a configuration.
#[verifier::ext_equal]
pub struct ConfigView {
    pub base_url: Seq<char>,
    pub warehouse_id: Seq<char>,
    pub token: Seq<char>,
    pub catalog: Option<Seq<char>>,
    pub schema: Option<Seq<char>>,
    pub redaction_values: Seq<Seq<char>>,
}

/// The text that there is, or none.
pub open spec fn optional(s: Option<String>) -> Option<Seq<char>> {
    match s {
        Some(s) => Some(s@),
        None => None,
    }
}

/// The first of two that is there.
pub open spec fn either(a: Option<Seq<char>>, b: Option<Seq<char>>) -> Option<Seq<char>> {
    if a is Some {
        a
    } else {
        b
    }
}

impl View for DatabricksConfig {
    type V = ConfigView;

    open spec fn view(&self) -> ConfigView {
        ConfigView {
            base_url: self.base_url@,
            warehouse_id: self.warehouse_id@,
            token: self.token@,
            catalog: optional(self.catalog),
            schema: optional(self.schema),
            redaction_values: secrets::texts(self.redaction_values@),
        }
    }
}

/// Copies a text that may be there.
fn copy_optional(s: &Option<String>) -> (r: Option<String>)
    ensures
        optional(r) == optional(*s),
{
    match s {
        Some(s) => Some(s.clone()),
        None => None,
    }
}

/// Copies a list of texts.
fn copy_texts(s: &Vec<String>) -> (r: Vec<String>)
    ensures
        secrets::texts(r@) == secrets::texts(s@),
{
    let mut out: Vec<String> = Vec::new();
    let mut i: usize = 0;
    while i < s.len()
        invariant
            i <= s@.len(),
            secrets::texts(out@) == secrets::texts(s@).take(i as int),
        decreases s@.len() - i,
    {
        let ghost before = out@;
        let item: String = s[i].clone();
        out.push(item);
        i += 1;
        proof {
            assert(secrets::texts(out@) =~= secrets::texts(before).push(item@));
            assert(secrets::texts(s@).take(i as int) =~= secrets::texts(s@).take(i - 1).push(
                secrets::texts(s@)[i - 1],
            ));
        }
    }
    assert(secrets::texts(s@).take(i as int) =~= secrets::texts(s@));
    out
}

impl Clone for DatabricksConfig {
    /// A copy with the same texts.
    fn clone(&self) -> (r: Self)
        ensures
            r@ == self@,
    {
        DatabricksConfig {
            base_url: self.base_url.clone(),
            warehouse_id: self.warehouse_id.clone(),
            token: self.token.clone(),
            catalog: copy_optional(&self.catalog),
            schema: copy_optional(&self.schema),
            redaction_values: copy_texts(&self.redaction_values),
        }
    }
}

// ------------------------------------------------- what a request configures

/// The connection string of a request.
pub open spec fn connection_string(request: JsonView) -> Option<Seq<char>> {
    settings::option_text(request, seq!["connectionString"@, "url"@, "dsn"@])
}

/// The parameters of the connection string of a request.
pub open spec fn connection_params(request: JsonView) -> Map<Seq<char>, Seq<char>> {
    match connection_string(request) {
        Some(s) => jdbc::params_of(s),
        None => Map::empty(),
    }
}

/// The base URL that a request configures: that of its connection string, or
/// else the one it sets.
pub open spec fn configured_url(request: JsonView) -> Option<Seq<char>> {
    let from_string = match connection_string(request) {
        Some(s) => url::connection_url(s),
        None => None,
    };
    match either(
        from_string,
        settings::option_text(request, seq!["host"@, "serverHostname"@, "workspaceUrl"@]),
    ) {
        Some(u) => Some(url::base_url(u)),
        None => None,
    }
}

/// The HTTP path that a request configures.
pub open spec fn configured_path(request: JsonView) -> Option<Seq<char>> {
    let names = seq!["httpPath"@, "http_path"@];
    either(
        settings::option_text(request, names),
        jdbc::param(connection_params(request), names),
    )
}

/// The warehouse that a request configures: the one that it sets, or else that
/// of its HTTP path.
pub open spec fn configured_warehouse(request: JsonView) -> Option<Seq<char>> {
    either(
        settings::option_text(
            request,
            seq!["warehouseId"@, "warehouse_id"@, "sqlWarehouseId"@, "warehouse"@],
        ),
        match configured_path(request) {
            Some(path) => url::warehouse_id(path),
            None => None,
        },
    )
}

/// The bearer token that a request configures.
pub open spec fn configured_token(request: JsonView) -> Option<Seq<char>> {
    either(
        settings::option_text(
            request,
            seq!["token"@, "accessToken"@, "bearerToken"@, "pat"@, "password"@],
        ),
        jdbc::param(
            connection_params(request),
            seq!["PWD"@, "password"@, "Token"@, "token"@],
        ),
    )
}

/// The catalog that a request configures.
pub open spec fn configured_catalog(request: JsonView) -> Option<Seq<char>> {
    either(
        settings::option_text(request, seq!["catalog"@]),
        jdbc::param(connection_params(request), seq!["ConnCatalog"@, "catalog"@]),
    )
}

/// The schema that a request configures.
pub open spec fn configured_schema(request: JsonView) -> Option<Seq<char>> {
    either(
        settings::option_text(request, seq!["schema"@, "database"@, "db"@]),
        jdbc::param(connection_params(request), seq!["schema"@, "database"@]),
    )
}

/// What must be hidden once a request configures the token `token` and the base
/// URL `base_url`.
pub open spec fn configured_secrets(
    request: JsonView,
    token: Seq<char>,
    base_url: Seq<char>,
) -> Seq<Seq<char>> {
    let known = secrets::with_url_auth(
        secrets::with_secret(Seq::empty(), token),
        base_url,
    );
    match connection_string(request) {
        Some(s) => secrets::with_jdbc_secrets(known, s),
        None => known,
    }
}

/// The configuration that a request gives, or what it lacks.
pub open spec fn configured(request: JsonView) -> Result<ConfigView, Seq<char>> {
    match configured_url(request) {
        None => Err("Databricks connect requires host, workspaceUrl, or url."@),
        Some(base_url) => match configured_warehouse(request) {
            None => Err(
                "Databricks connect requires warehouseId or an httpPath containing /warehouses/<id>."@,
            ),
            Some(warehouse_id) => match configured_token(request) {
                None => Err("Databricks connect requires a bearer token."@),
                Some(token) => Ok(
                    ConfigView {
                        base_url,
                        warehouse_id,
                        token,
                        catalog: configured_catalog(request),
                        schema: configured_schema(request),
                        redaction_values: configured_secrets(request, token, base_url),
                    },
                ),
            },
        },
    }
}

/// Looks a setting up in the request, and then in the connection string.
fn setting_or_param(
    request: &Json,
    params: &jdbc::JdbcParams,
    fields: &[&str],
    names: &[&str],
) -> (r: Option<String>)
    ensures
        optional(r) == either(
            settings::option_text(request@, json::words(fields@)),
            jdbc::param(params@, json::words(names@)),
        ),
{
    match settings::option_string(request, fields) {
        Some(s) => Some(s),
        None => jdbc::jdbc_param(params, names),
    }
}

impl DatabricksConfig {
    /// Reads the configuration out of a connect request.
    pub fn from_request(request: &Json) -> (r: Result<DatabricksConfig, String>)
        ensures
            match r {
                Ok(config) => configured(request@) == Ok::<ConfigView, Seq<char>>(config@),
                Err(message) => configured(request@) == Err::<ConfigView, Seq<char>>(message@),
            },
    {
        let connection_string: Option<String> = settings::option_string(
            request,
            &["connectionString", "url", "dsn"],
        );
        proof {
            assert(json::words(["connectionString", "url", "dsn"]@) =~= seq![
                "connectionString"@,
                "url"@,
                "dsn"@,
            ]);
        }
        let params: jdbc::JdbcParams = match &connection_string {
            Some(s) => jdbc::parse_jdbc_params(s.as_str()),
            None => jdbc::JdbcParams::new(),
        };
        let from_string: Option<String> = match &connection_string {
            Some(s) => url::base_url_from_connection_string(s.as_str()),
            None => None,
        };
        let host: Option<String> = match from_string {
            Some(u) => Some(u),
            None => settings::option_string(request, &["host", "serverHostname", "workspaceUrl"]),
        };
        proof {
            assert(json::words(["host", "serverHostname", "workspaceUrl"]@) =~= seq![
                "host"@,
                "serverHostname"@,
                "workspaceUrl"@,
            ]);
        }
        let base_url: String = match host {
            Some(u) => url::normalize_base_url(u.as_str()),
            None => {
                return Err("Databricks connect requires host, workspaceUrl, or url.".to_string());
            },
        };
        let warehouse_id: String = match Self::warehouse(request, &params) {
            Some(id) => id,
            None => {
                return Err(
                    "Databricks connect requires warehouseId or an httpPath containing /warehouses/<id>.".to_string(),
                );
            },
        };
        let token: String = match setting_or_param(
            request,
            &params,
            &["token", "accessToken", "bearerToken", "pat", "password"],
            &["PWD", "password", "Token", "token"],
        ) {
            Some(token) => token,
            None => {
                proof {
                    Self::lemma_names();
                }
                return Err("Databricks connect requires a bearer token.".to_string());
            },
        };
        let catalog: Option<String> = setting_or_param(
            request,
            &params,
            &["catalog"],
            &["ConnCatalog", "catalog"],
        );
        let schema: Option<String> = setting_or_param(
            request,
            &params,
            &["schema", "database", "db"],
            &["schema", "database"],
        );
        let mut redaction_values: Vec<String> = Vec::new();
        assert(secrets::texts(redaction_values@) =~= Seq::<Seq<char>>::empty());
        secrets::push_sensitive(&mut redaction_values, Some(token.as_str()));
        secrets::collect_url_auth(base_url.as_str(), &mut redaction_values);
        if let Some(s) = &connection_string {
            secrets::collect_jdbc_secrets(s.as_str(), &mut redaction_values);
        }
        proof {
            Self::lemma_names();
        }
        Ok(DatabricksConfig { base_url, warehouse_id, token, catalog, schema, redaction_values })
    }

    /// The texts of the names under which settings are looked up.
    proof fn lemma_names()
        ensures
            json::words(["token", "accessToken", "bearerToken", "pat", "password"]@) == seq![
                "token"@,
                "accessToken"@,
                "bearerToken"@,
                "pat"@,
                "password"@,
            ],
            json::words(["PWD", "password", "Token", "token"]@) == seq![
                "PWD"@,
                "password"@,
                "Token"@,
                "token"@,
            ],
            json::words(["catalog"]@) == seq!["catalog"@],
            json::words(["ConnCatalog", "catalog"]@) == seq!["ConnCatalog"@, "catalog"@],
            json::words(["schema", "database", "db"]@) == seq!["schema"@, "database"@, "db"@],
            json::words(["schema", "database"]@) == seq!["schema"@, "database"@],
    {
    }

    /// Looks for the warehouse of a request.
    fn warehouse(request: &Json, params: &jdbc::JdbcParams) -> (r: Option<String>)
        requires
            params@ == connection_params(request@),
        ensures
            optional(r) == configured_warehouse(request@),
    {
        let http_path: Option<String> = setting_or_param(
            request,
            params,
            &["httpPath", "http_path"],
            &["httpPath", "http_path"],
        );
        let named: Option<String> = settings::option_string(
            request,
            &["warehouseId", "warehouse_id", "sqlWarehouseId", "warehouse"],
        );
        proof {
            assert(json::words(["httpPath", "http_path"]@) =~= seq!["httpPath"@, "http_path"@]);
            assert(json::words(["warehouseId", "warehouse_id", "sqlWarehouseId", "warehouse"]@)
                =~= seq!["warehouseId"@, "warehouse_id"@, "sqlWarehouseId"@, "warehouse"@]);
        }
        match named {
            Some(id) => Some(id),
            None => match &http_path {
                Some(path) => url::warehouse_id_from_http_path(path.as_str()),
                None => None,
            },
        }
    }
}

impl ConfigView {
    /// `message` as it may be shown to a user of this configuration.
    pub open spec fn shown(self, message: Seq<char>) -> Seq<char> {
        secrets::redacted(message, self.base_url, self.redaction_values)
    }

    /// Whether the configuration can be used: its URL names a scheme, the
    /// warehouse and the token are there, and what it hides is well kept and
    /// holds the token.
    pub open spec fn usable(self) -> bool {
        &&& url::has_scheme(self.base_url)
        &&& self.warehouse_id.len() > 0
        &&& self.token.len() > 0
        &&& secrets::well_kept(self.redaction_values)
        &&& self.redaction_values.contains(self.token)
    }
}

impl DatabricksConfig {
    /// Masks the base URL and the secrets of the connection in a message.
    pub fn redact(&self, message: &str) -> (r: String)
        ensures
            r@ == self@.shown(message@),
    {
        secrets::redact_message(message, self.base_url.as_str(), &self.redaction_values)
    }
}

// --------------------------------------------------------------------- laws

/// A parameter of a connection string is trimmed and not empty.
proof fn lemma_param_trimmed(request: JsonView, names: Seq<Seq<char>>)
    ensures
        jdbc::param(connection_params(request), names) matches Some(v) ==> v.len() > 0
            && text::trimmed(v) == v,
{
    jdbc::param_is_a_value(connection_params(request), names);
    match connection_string(request) {
        Some(s) => jdbc::params_are_trimmed(s),
        None => {},
    }
}

/// Every configuration that a request gives is usable.
pub proof fn configurations_are_usable(request: JsonView)
    ensures
        configured(request) matches Ok(c) ==> c.usable(),
{
    if let Ok(c) = configured(request) {
        let named = seq!["token"@, "accessToken"@, "bearerToken"@, "pat"@, "password"@];
        settings::settings_are_trimmed(request, named);
        lemma_param_trimmed(request, seq!["PWD"@, "password"@, "Token"@, "token"@]);
        settings::settings_are_trimmed(
            request,
            seq!["warehouseId"@, "warehouse_id"@, "sqlWarehouseId"@, "warehouse"@],
        );
        url::base_urls_name_their_scheme(
            either(
                match connection_string(request) {
                    Some(s) => url::connection_url(s),
                    None => None,
                },
                settings::option_text(
                    request,
                    seq!["host"@, "serverHostname"@, "workspaceUrl"@],
                ),
            )->0,
        );
        let none = Seq::<Seq<char>>::empty();
        let first = secrets::with_secret(none, c.token);
        secrets::adding_a_secret(none, c.token);
        secrets::adding_url_auth(first, c.base_url);
        let second = secrets::with_url_auth(first, c.base_url);
        match connection_string(request) {
            Some(s) => secrets::adding_jdbc_secrets(second, s),
            None => {},
        }
        let i = first.index_of(c.token);
        assert(second[i] == c.token);
        assert(c.redaction_values[i] == c.token);
    }
}

/// What a configuration hides: the passwords and tokens of its connection
/// string, and each part of the credentials of its URL.
pub proof fn credentials_are_hidden(request: JsonView)
    ensures
        configured(request) matches Ok(c) ==> {
            &&& connection_string(request) is Some ==> {
                let params = connection_params(request);
                &&& params.contains_key("pwd"@) ==> c.redaction_values.contains(params["pwd"@])
                &&& params.contains_key("password"@) ==> c.redaction_values.contains(
                    params["password"@],
                )
                &&& params.contains_key("token"@) ==> c.redaction_values.contains(
                    params["token"@],
                )
            }
            &&& secrets::url_auth(c.base_url) matches Some(auth) ==> auth.contains(':')
                ==> forall|i: int|
                0 <= i < text::pieces(auth, ':').len() && text::trimmed(
                    #[trigger] text::pieces(auth, ':')[i],
                ).len() > 0 ==> c.redaction_values.contains(
                    text::trimmed(text::pieces(auth, ':')[i]),
                )
        },
{
    if let Ok(c) = configured(request) {
        let none = Seq::<Seq<char>>::empty();
        let first = secrets::with_secret(none, c.token);
        secrets::adding_a_secret(none, c.token);
        secrets::adding_url_auth(first, c.base_url);
        let second = secrets::with_url_auth(first, c.base_url);
        match connection_string(request) {
            Some(s) => secrets::adding_jdbc_secrets(second, s),
            None => {},
        }
        assert(second.is_prefix_of(c.redaction_values));
        secrets::lemma_prefix_contains(second, c.redaction_values);
    }
}

/// No message that is shown for a configured connection contains its token,
/// where the token is clear of the mask.
pub proof fn shown_messages_hide_the_token(request: JsonView, message: Seq<char>)
    requires
        configured(request) matches Ok(c) && text::clear_of(c.token, "****"@),
    ensures
        configured(request) matches Ok(c) ==> !text::occurs(c.shown(message), c.token),
{
    configurations_are_usable(request);
    let c = configured(request)->Ok_0;
    let i = c.redaction_values.index_of(c.token);
    secrets::redaction_hides_secrets(message, c.base_url, c.redaction_values, i);
}

/// What a request sets itself wins over the parameters of its connection string, and
/// the warehouse that it sets wins over the one that its HTTP path names.
pub proof fn settings_win_over_parameters(request: JsonView)
    ensures
        ({
            let token = settings::option_text(
                request,
                seq!["token"@, "accessToken"@, "bearerToken"@, "pat"@, "password"@],
            );
            let warehouse = settings::option_text(
                request,
                seq!["warehouseId"@, "warehouse_id"@, "sqlWarehouseId"@, "warehouse"@],
            );
            let path = settings::option_text(request, seq!["httpPath"@, "http_path"@]);
            let catalog = settings::option_text(request, seq!["catalog"@]);
            let schema = settings::option_text(request, seq!["schema"@, "database"@, "db"@]);
            &&& token is Some ==> configured_token(request) == token
            &&& path is Some ==> configured_path(request) == path
            &&& warehouse is Some ==> configured_warehouse(request) == warehouse
            &&& catalog is Some ==> configured_catalog(request) == catalog
            &&& schema is Some ==> configured_schema(request) == schema
        }),
{
}

/// The host of a connection string wins over a host that the request sets.
pub proof fn connection_string_host_wins(request: JsonView)
    requires
        connection_string(request) matches Some(s) && url::connection_url(s) is Some,
    ensures
        connection_string(request) matches Some(s) ==> configured_url(request) == Some(
            url::base_url(url::connection_url(s)->0),
        ),
{
}

/// A configuration says what its fields hold.
pub proof fn configurations_say_their_fields(config: DatabricksConfig)
    ensures
        config@.base_url == config.base_url@,
        config@.warehouse_id == config.warehouse_id@,
        config@.token == config.token@,
        config.catalog matches Some(c) ==> config@.catalog == Some(c@),
        config.catalog is None ==> config@.catalog is None,
        config.schema matches Some(s) ==> config@.schema == Some(s@),
        config.schema is None ==> config@.schema is None,
        config@.redaction_values.len() == config.redaction_values@.len(),
        forall|i: int|
            0 <= i < config.redaction_values@.len() ==> #[trigger] config@.redaction_values[i]
                == config.redaction_values@[i]@,
{
}

/// The parameters of a connection string that may be there.
pub open spec fn given_params(string: Option<Seq<char>>) -> Map<Seq<char>, Seq<char>> {
    if string is Some {
        jdbc::params_of(string->0)
    } else {
        Map::empty()
    }
}

/// Where each part of a configuration comes from. The base URL is that of the host of
/// the connection string, or else of the host that the request sets. The warehouse is
/// the one that the request sets, or else that of the HTTP path, which the request
/// sets or else the connection string. The token, the catalog and the schema are what
/// the request sets, or else the connection string; the catalog and the schema may be
/// missing.
pub proof fn configurations_hold_what_is_set(request: JsonView)
    ensures
        configured(request) matches Ok(c) ==> {
            let string = settings::option_text(
                request,
                seq!["connectionString"@, "url"@, "dsn"@],
            );
            let params = given_params(string);
            let host = settings::option_text(
                request,
                seq!["host"@, "serverHostname"@, "workspaceUrl"@],
            );
            let warehouse = settings::option_text(
                request,
                seq!["warehouseId"@, "warehouse_id"@, "sqlWarehouseId"@, "warehouse"@],
            );
            let path = settings::option_text(request, seq!["httpPath"@, "http_path"@]);
            let other_path = jdbc::param(params, seq!["httpPath"@, "http_path"@]);
            let token = settings::option_text(
                request,
                seq!["token"@, "accessToken"@, "bearerToken"@, "pat"@, "password"@],
            );
            let catalog = settings::option_text(request, seq!["catalog"@]);
            let schema = settings::option_text(request, seq!["schema"@, "database"@, "db"@]);
            let named = string is Some && url::connection_url(string->0) is Some;
            &&& named ==> c.base_url == url::base_url(url::connection_url(string->0)->0)
            &&& !named ==> host is Some && c.base_url == url::base_url(host->0)
            &&& warehouse is Some ==> c.warehouse_id == warehouse->0
            &&& warehouse is None && path is Some ==> Some(c.warehouse_id) == url::warehouse_id(
                path->0,
            )
            &&& warehouse is None && path is None ==> other_path is Some && Some(c.warehouse_id)
                == url::warehouse_id(other_path->0)
            &&& token is Some ==> c.token == token->0
            &&& token is None ==> Some(c.token) == jdbc::param(
                params,
                seq!["PWD"@, "password"@, "Token"@, "token"@],
            )
            &&& catalog is Some ==> c.catalog == catalog
            &&& catalog is None ==> c.catalog == jdbc::param(
                params,
                seq!["ConnCatalog"@, "catalog"@],
            )
            &&& schema is Some ==> c.schema == schema
            &&& schema is None ==> c.schema == jdbc::param(params, seq!["schema"@, "database"@])
        },
{
}

/// A request is refused for the first thing that it lacks, and for nothing else: an
/// address, a warehouse, a token.
pub proof fn requests_are_refused_for_what_they_lack(request: JsonView)
    ensures
        ({
            let string = settings::option_text(
                request,
                seq!["connectionString"@, "url"@, "dsn"@],
            );
            let params = given_params(string);
            let path = settings::option_text(request, seq!["httpPath"@, "http_path"@]);
            let other_path = jdbc::param(params, seq!["httpPath"@, "http_path"@]);
            let address = {
                ||| string is Some && url::connection_url(string->0) is Some
                ||| settings::option_text(
                    request,
                    seq!["host"@, "serverHostname"@, "workspaceUrl"@],
                ) is Some
            };
            let warehouse = {
                ||| settings::option_text(
                    request,
                    seq!["warehouseId"@, "warehouse_id"@, "sqlWarehouseId"@, "warehouse"@],
                ) is Some
                ||| path is Some && url::warehouse_id(path->0) is Some
                ||| path is None && other_path is Some && url::warehouse_id(other_path->0) is Some
            };
            let token = {
                ||| settings::option_text(
                    request,
                    seq!["token"@, "accessToken"@, "bearerToken"@, "pat"@, "password"@],
                ) is Some
                ||| jdbc::param(params, seq!["PWD"@, "password"@, "Token"@, "token"@]) is Some
            };
            &&& address && warehouse && token <==> configured(request) is Ok
            &&& !address ==> configured(request) == Err::<ConfigView, Seq<char>>(
                "Databricks connect requires host, workspaceUrl, or url."@,
            )
            &&& address && !warehouse ==> configured(request) == Err::<ConfigView, Seq<char>>(
                "Databricks connect requires warehouseId or an httpPath containing /warehouses/<id>."@,
            )
            &&& address && warehouse && !token ==> configured(request) == Err::<
                ConfigView,
                Seq<char>,
            >("Databricks connect requires a bearer token."@)
        }),
{
}

/// A configuration hides its token, then the credentials of its base URL, then the
/// secrets of its connection string, and nothing else.
pub proof fn configurations_hide_credentials_alone(request: JsonView)
    ensures
        configured(request) matches Ok(c) ==> {
            let string = settings::option_text(
                request,
                seq!["connectionString"@, "url"@, "dsn"@],
            );
            let known = secrets::with_url_auth(seq![c.token], c.base_url);
            &&& string is Some ==> c.redaction_values == secrets::with_jdbc_secrets(
                known,
                string->0,
            )
            &&& string is None ==> c.redaction_values == known
        },
{
    if let Ok(c) = configured(request) {
        let named = seq!["token"@, "accessToken"@, "bearerToken"@, "pat"@, "password"@];
        settings::settings_are_trimmed(request, named);
        lemma_param_trimmed(request, seq!["PWD"@, "password"@, "Token"@, "token"@]);
        let none = Seq::<Seq<char>>::empty();
        secrets::secrets_are_kept_in_order(none, none, c.token);
        assert(none + seq![c.token] =~= seq![c.token]);
        assert(!none.contains(c.token));
    }
}

/// A message is shown with the base URL and what the configuration hides masked, and
/// with nothing else changed.
pub proof fn configurations_mask_their_own_secrets(config: ConfigView, message: Seq<char>)
    ensures
        config.shown(message) == secrets::redacted(
            message,
            config.base_url,
            config.redaction_values,
        ),
{
}

} // verus!
