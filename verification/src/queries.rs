//! The driver's own queries: the version of the server, and its catalog.

use crate::json;
use crate::json::{Json, JsonView};
use crate::metadata;
use crate::rows;
use crate::rows::{OutputView, QueryOutput};
use crate::text;
use vstd::prelude::*;

verus! {

/// The query for the version of the server.
pub const VERSION_SQL: &'static str = "select version()";

/// How many rows of the version query are wanted at most.
pub const VERSION_CAP: usize = 1;

/// The query for the columns of the current catalog.
pub const CATALOG_SQL: &'static str =
    "select table_catalog, table_schema, table_name, column_name, data_type, ordinal_position, is_nullable from information_schema.columns where table_schema <> 'information_schema' order by table_catalog, table_schema, table_name, ordinal_position limit 10000";

/// The query for the columns of all catalogs.
pub const SYSTEM_CATALOG_SQL: &'static str =
    "select table_catalog, table_schema, table_name, column_name, data_type, ordinal_position, is_nullable from system.information_schema.columns where table_schema <> 'information_schema' order by table_catalog, table_schema, table_name, ordinal_position limit 10000";

/// How many rows of a catalog query are wanted at most.
pub const CATALOG_CAP: usize = 10_000;

/// The name of the server whose version query gave `rows`.
pub open spec fn server_name(rows: Seq<Seq<JsonView>>) -> Seq<char> {
    if rows.len() > 0 && rows[0].len() > 0 {
        match rows[0][0].text() {
            Some(version) => "Databricks SQL "@ + version,
            None => "Databricks SQL"@,
        }
    } else {
        "Databricks SQL"@
    }
}

/// Names the server by what its version query gave.
pub fn version_from_rows(rows: &Vec<Vec<Json>>) -> (r: String)
    ensures
        r@ == server_name(rows::cells(rows@)),
{
    if rows.len() > 0 {
        let row: &Vec<Json> = &rows[0];
        proof {
            json::lemma_documents(row@);
            assert(rows::cells(rows@)[0] == json::documents(row@));
        }
        if row.len() > 0 {
            assert(json::documents(row@)[0] == row@[0]@);
            if let Some(version) = row[0].as_str() {
                return text::join("Databricks SQL ", version);
            }
        }
    }
    "Databricks SQL".to_string()
}

/// The query that is tried in the given place, first place 0.
pub open spec fn catalog_query(attempt: nat) -> Option<Seq<char>> {
    if attempt == 0 {
        Some(CATALOG_SQL@)
    } else if attempt == 1 {
        Some(SYSTEM_CATALOG_SQL@)
    } else {
        None
    }
}

/// The query that is tried in the given place.
pub fn metadata_sql(attempt: usize) -> (r: Option<&'static str>)
    ensures
        match r {
            Some(sql) => catalog_query(attempt as nat) == Some(sql@),
            None => catalog_query(attempt as nat) is None,
        },
{
    if attempt == 0 {
        Some(CATALOG_SQL)
    } else if attempt == 1 {
        Some(SYSTEM_CATALOG_SQL)
    } else {
        None
    }
}

/// What to do after a catalog query: stop, with the catalog or with a message, or
/// try the query in the place `attempt`.
#[derive(Debug, PartialEq, Eq)]
pub enum MetadataStep {
    Done(Json),
    Fail(String),
    Try(usize),
}

/// What a step says.
pub enum MetadataView {
    Done(JsonView),
    Fail(Seq<char>),
    Try(nat),
}

impl View for MetadataStep {
    type V = MetadataView;

    open spec fn view(&self) -> MetadataView {
        match self {
            MetadataStep::Done(j) => MetadataView::Done(j@),
            MetadataStep::Fail(m) => MetadataView::Fail(m@),
            MetadataStep::Try(n) => MetadataView::Try(*n as nat),
        }
    }
}

/// What a result or a message says.
pub open spec fn output_said(r: Result<QueryOutput, String>) -> Result<OutputView, Seq<char>> {
    match r {
        Ok(o) => Ok(o@),
        Err(e) => Err(e@),
    }
}

/// What to do after the query in the place `attempt` gave `outcome`: the first
/// result is described; a message is passed over while there is another query to
/// try.
pub open spec fn catalog_step(attempt: nat, outcome: Result<OutputView, Seq<char>>) -> MetadataView {
    match outcome {
        Ok(output) => MetadataView::Done(
            metadata::catalog_document(metadata::grouped(output.columns, output.rows)),
        ),
        Err(message) => if catalog_query(attempt + 1) is Some {
            MetadataView::Try(attempt + 1)
        } else {
            MetadataView::Fail(message)
        },
    }
}

/// Decides what to do after a catalog query.
pub fn metadata_step(attempt: usize, outcome: Result<QueryOutput, String>) -> (r: MetadataStep)
    requires
        catalog_query(attempt as nat) is Some,
    ensures
        r@ == catalog_step(attempt as nat, output_said(outcome)),
{
    match outcome {
        Ok(output) => MetadataStep::Done(
            metadata::metadata_from_rows(output.columns.as_slice(), output.rows.as_slice()),
        ),
        Err(message) => match metadata_sql(attempt + 1) {
            Some(_) => MetadataStep::Try(attempt + 1),
            None => MetadataStep::Fail(message),
        },
    }
}

/// Both catalog queries are tried before a message is given, and it is that of the
/// last one.
pub proof fn both_catalogs_are_tried(
    first: Seq<char>,
    second: Result<OutputView, Seq<char>>,
)
    ensures
        catalog_step(0, Err(first)) == MetadataView::Try(1),
        catalog_step(1, second) matches MetadataView::Fail(m) ==> second
            == Err::<OutputView, Seq<char>>(m),
        catalog_step(1, second) !is Try,
{
}

/// The server is named by the version in the first cell of the first row, where that
/// is a string, and by its kind alone elsewhere.
pub proof fn servers_are_named_by_their_version(rows: Seq<Seq<JsonView>>, version: Seq<char>)
    ensures
        rows.len() > 0 && rows[0].len() > 0 && rows[0][0] == JsonView::Text(version)
            ==> server_name(rows) == "Databricks SQL "@ + version,
        rows.len() == 0 || rows[0].len() == 0 || rows[0][0] !is Text ==> server_name(rows)
            == "Databricks SQL"@,
{
}

/// The first catalog query that gives a result is described, by its columns and all
/// its rows, and whatever came before it.
pub proof fn results_are_described(attempt: nat, output: OutputView)
    ensures
        catalog_step(attempt, Ok(output)) == MetadataView::Done(
            metadata::catalog_document(metadata::grouped(output.columns, output.rows)),
        ),
{
}

/// The catalog queries are those of the current catalog and then of all catalogs; the
/// second asks for the same as the first, of the system catalog. Up to ten thousand
/// rows of them are wanted, and one row of the version query.
pub proof fn queries_ask_for_the_catalog(attempt: nat)
    ensures
        catalog_query(0) == Some(
            "select table_catalog, table_schema, table_name, column_name, data_type, ordinal_position, is_nullable from information_schema.columns where table_schema <> 'information_schema' order by table_catalog, table_schema, table_name, ordinal_position limit 10000"@,
        ),
        catalog_query(1) == Some(
            "select table_catalog, table_schema, table_name, column_name, data_type, ordinal_position, is_nullable from system.information_schema.columns where table_schema <> 'information_schema' order by table_catalog, table_schema, table_name, ordinal_position limit 10000"@,
        ),
        attempt > 1 ==> catalog_query(attempt) is None,
        VERSION_SQL@ == "select version()"@,
        VERSION_CAP == 1,
        CATALOG_CAP == 10000,
{
}

/// A result or a message says what it holds, and a step what it carries.
pub proof fn steps_say_what_they_carry(
    output: QueryOutput,
    message: String,
    document: Json,
    next: usize,
)
    ensures
        output_said(Ok(output)) == Ok::<OutputView, Seq<char>>(output@),
        output_said(Err(message)) == Err::<OutputView, Seq<char>>(message@),
        MetadataStep::Done(document)@ == MetadataView::Done(document@),
        MetadataStep::Fail(message)@ == MetadataView::Fail(message@),
        MetadataStep::Try(next)@ == MetadataView::Try(next as nat),
{
}

} // verus!
