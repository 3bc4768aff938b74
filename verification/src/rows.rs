//! Collecting the rows of a statement, chunk by chunk and up to a cap.

use crate::json;
use crate::json::{Json, JsonView};
use crate::secrets;
use vstd::prelude::*;

verus! {

/// The result of a query.
#[derive(Debug, PartialEq, Eq)]
pub struct QueryOutput {
    pub columns: Vec<String>,
    pub rows: Vec<Vec<Json>>,
    pub truncated: bool,
}

/// What the result of a query says.
#[verifier::ext_equal]
pub struct OutputView {
    pub columns: Seq<Seq<char>>,
    pub rows: Seq<Seq<JsonView>>,
    pub truncated: bool,
}

/// What the cells of each row say.
pub open spec fn cells(rows: Seq<Vec<Json>>) -> Seq<Seq<JsonView>> {
    Seq::new(rows.len(), |i: int| json::documents(rows[i]@))
}

impl View for QueryOutput {
    type V = OutputView;

    open spec fn view(&self) -> OutputView {
        OutputView {
            columns: secrets::texts(self.columns@),
            rows: cells(self.rows@),
            truncated: self.truncated,
        }
    }
}

// --------------------------------------------------- what a response holds

/// The name of a column.
pub open spec fn column_name(column: JsonView) -> Seq<char> {
    match column.member("name"@) {
        Some(v) => match v.text() {
            Some(s) => s,
            None => "value"@,
        },
        None => "value"@,
    }
}

/// The names of the columns that a response describes.
pub open spec fn column_names(value: JsonView) -> Seq<Seq<char>> {
    match array_at(value, seq!["manifest"@, "schema"@, "columns"@]) {
        Some(columns) => Seq::new(columns.len(), |i: int| column_name(columns[i])),
        None => Seq::empty(),
    }
}

/// The array that is reached through `path`.
pub open spec fn array_at(value: JsonView, path: Seq<Seq<char>>) -> Option<Seq<JsonView>> {
    match value.at(path) {
        Some(v) => v.items(),
        None => None,
    }
}

/// Whether a response says that its result was cut short.
pub open spec fn says_truncated(value: JsonView) -> bool {
    value.at(seq!["manifest"@, "truncated"@]) == Some(JsonView::Bool(true))
}

/// The cells of a row: its elements, or the row itself where it is no array.
pub open spec fn row_cells(row: JsonView) -> Seq<JsonView> {
    match row.items() {
        Some(a) => a,
        None => seq![row],
    }
}

/// The rows that a response holds.
pub open spec fn data_rows(value: JsonView) -> Seq<Seq<JsonView>> {
    match array_at(value, seq!["result"@, "data_array"@]) {
        Some(data) => Seq::new(data.len(), |i: int| row_cells(data[i])),
        None => Seq::empty(),
    }
}

/// Where a response says that the next chunk is.
pub open spec fn next_chunk(value: JsonView) -> Option<Seq<char>> {
    match value.at(seq!["result"@, "next_chunk_internal_link"@]) {
        Some(v) => v.text(),
        None => None,
    }
}

/// Reads the names of the columns.
fn read_columns(value: &Json) -> (r: Vec<String>)
    ensures
        secrets::texts(r@) == column_names(value@),
{
    let mut out: Vec<String> = Vec::new();
    assert(json::words(["manifest", "schema", "columns"]@) =~= seq![
        "manifest"@,
        "schema"@,
        "columns"@,
    ]);
    let found: Option<&Json> = value.at(&["manifest", "schema", "columns"]);
    if let Some(v) = found {
        if let Some(columns) = v.as_array() {
            let mut i: usize = 0;
            proof {
                json::lemma_documents(columns@);
            }
            while i < columns.len()
                invariant
                    i <= columns@.len(),
                    json::documents(columns@).len() == columns@.len(),
                    forall|k: int|
                        0 <= k < columns@.len() ==> #[trigger] json::documents(columns@)[k]
                            == columns@[k]@,
                    column_names(value@) == Seq::new(
                        json::documents(columns@).len(),
                        |k: int| column_name(json::documents(columns@)[k]),
                    ),
                    secrets::texts(out@) == column_names(value@).take(i as int),
                decreases columns@.len() - i,
            {
                let name: &str = match columns[i].get("name") {
                    Some(n) => match n.as_str() {
                        Some(s) => s,
                        None => "value",
                    },
                    None => "value",
                };
                let name: String = name.to_string();
                let ghost before = out@;
                out.push(name);
                i += 1;
                assert(secrets::texts(out@) =~= secrets::texts(before).push(name@));
                assert(column_names(value@).take(i as int) =~= column_names(value@).take(
                    i - 1,
                ).push(column_names(value@)[i - 1]));
            }
            assert(column_names(value@).take(i as int) =~= column_names(value@));
            return out;
        }
    }
    assert(secrets::texts(out@) =~= column_names(value@));
    out
}

/// Copies the cells of a row.
fn read_row(row: &Json) -> (r: Vec<Json>)
    ensures
        json::documents(r@) == row_cells(row@),
{
    let mut out: Vec<Json> = Vec::new();
    match row.as_array() {
        Some(a) => {
            let mut i: usize = 0;
            while i < a.len()
                invariant
                    i <= a@.len(),
                    json::documents(out@) == json::documents(a@.take(i as int)),
                decreases a@.len() - i,
            {
                let cell: Json = a[i].clone();
                proof {
                    assert(a@.take(i + 1).drop_last() =~= a@.take(i as int));
                    assert(out@.push(cell).drop_last() =~= out@);
                }
                out.push(cell);
                i += 1;
            }
            assert(a@.take(i as int) =~= a@);
        },
        None => {
            out.push(row.clone());
            proof {
                json::lemma_documents(out@);
                assert(json::documents(out@) =~= seq![row@]);
            }
        },
    }
    out
}

// ---------------------------------------------------------------- collecting

/// The result before any row of it is collected.
pub open spec fn empty_output(value: JsonView) -> OutputView {
    OutputView {
        columns: column_names(value),
        rows: Seq::empty(),
        truncated: says_truncated(value),
    }
}

/// `output` with the rows of `value` that there is room for; the result counts as
/// truncated once a row found no room.
pub open spec fn absorbed(output: OutputView, value: JsonView, cap: nat) -> OutputView {
    let data = data_rows(value);
    let room = if output.rows.len() < cap {
        cap - output.rows.len()
    } else {
        0
    };
    OutputView {
        columns: output.columns,
        rows: output.rows + data.take(
            if data.len() < room {
                data.len() as int
            } else {
                room
            },
        ),
        truncated: output.truncated || data.len() > room,
    }
}

/// Where to go on after `value` was absorbed into `output`: to the next chunk,
/// while there is room and there is one.
pub open spec fn continued(output: OutputView, value: JsonView, cap: nat) -> Option<Seq<char>> {
    if output.rows.len() >= cap {
        None
    } else {
        next_chunk(value)
    }
}

/// Collects the rows of a statement.
pub struct RowCollector {
    cap: usize,
    output: QueryOutput,
}

impl RowCollector {
    /// How many rows are wanted at most.
    pub closed spec fn cap(&self) -> nat {
        self.cap as nat
    }

    /// What is collected so far.
    pub closed spec fn output(&self) -> OutputView {
        self.output@
    }

    /// A collector for the statement that `value` is the response to.
    pub fn new(value: &Json, cap: usize) -> (r: RowCollector)
        ensures
            r.cap() == cap,
            r.output() == empty_output(value@),
    {
        assert(json::words(["manifest", "truncated"]@) =~= seq!["manifest"@, "truncated"@]);
        let truncated: bool = match value.at(&["manifest", "truncated"]) {
            Some(Json::Bool(b)) => *b,
            _ => false,
        };
        let output: QueryOutput = QueryOutput {
            columns: read_columns(value),
            rows: Vec::new(),
            truncated,
        };
        assert(output@ =~= empty_output(value@));
        RowCollector { cap, output }
    }

    /// Takes the rows of a response up, and says where the next chunk is if it is
    /// wanted.
    pub fn absorb(&mut self, value: &Json) -> (r: Option<String>)
        ensures
            final(self).cap() == old(self).cap(),
            final(self).output() == absorbed(old(self).output(), value@, old(self).cap()),
            match r {
                Some(link) => continued(final(self).output(), value@, old(self).cap()) == Some(
                    link@,
                ),
                None => continued(final(self).output(), value@, old(self).cap()) is None,
            },
    {
        self.take_rows(value);
        if self.output.rows.len() >= self.cap {
            return None;
        }
        assert(json::words(["result", "next_chunk_internal_link"]@) =~= seq![
            "result"@,
            "next_chunk_internal_link"@,
        ]);
        match value.at(&["result", "next_chunk_internal_link"]) {
            Some(v) => match v.as_str() {
                Some(link) => Some(link.to_string()),
                None => None,
            },
            None => None,
        }
    }

    /// Takes the rows of a response up.
    fn take_rows(&mut self, value: &Json)
        ensures
            final(self).cap() == old(self).cap(),
            final(self).output() == absorbed(old(self).output(), value@, old(self).cap()),
    {
        let ghost before = self.output@;
        let ghost rows = data_rows(value@);
        assert(json::words(["result", "data_array"]@) =~= seq!["result"@, "data_array"@]);
        let found: Option<&Json> = value.at(&["result", "data_array"]);
        if let Some(v) = found {
            if let Some(data) = v.as_array() {
                let mut i: usize = 0;
                proof {
                    json::lemma_documents(data@);
                    assert(before.rows + rows.take(0) =~= before.rows);
                }
                while i < data.len()
                    invariant
                        i <= data@.len(),
                        self.cap() == old(self).cap(),
                        old(self).output() == before,
                        rows == data_rows(value@),
                        json::documents(data@).len() == data@.len(),
                        forall|k: int|
                            0 <= k < data@.len() ==> #[trigger] json::documents(data@)[k]
                                == data@[k]@,
                        rows == Seq::new(
                            json::documents(data@).len(),
                            |k: int| row_cells(json::documents(data@)[k]),
                        ),
                        self.output@.columns == before.columns,
                        self.output@.truncated == before.truncated,
                        self.output@.rows == before.rows + rows.take(i as int),
                        i > 0 ==> before.rows.len() + i <= self.cap(),
                    decreases data@.len() - i,
                {
                    if self.output.rows.len() >= self.cap {
                        self.output.truncated = true;
                        assert(self.output() =~= absorbed(before, value@, self.cap()));
                        return;
                    }
                    let row: Vec<Json> = read_row(&data[i]);
                    let ghost so_far = self.output.rows@;
                    self.output.rows.push(row);
                    i += 1;
                    proof {
                        assert(cells(self.output.rows@) =~= cells(so_far).push(
                            json::documents(row@),
                        ));
                        assert(rows.take(i as int) =~= rows.take(i - 1).push(rows[i - 1]));
                        assert(self.output@.rows =~= before.rows + rows.take(i as int));
                    }
                }
                assert(rows.take(i as int) =~= rows);
                assert(self.output() =~= absorbed(before, value@, self.cap()));
                return;
            }
        }
        assert(self.output() =~= absorbed(before, value@, self.cap()));
    }

    /// The collected result.
    pub fn finish(self) -> (r: QueryOutput)
        ensures
            r@ == self.output(),
    {
        self.output
    }
}

// --------------------------------------------------------------------- laws

/// The rows of a list of responses, in order.
pub open spec fn all_rows(chunks: Seq<JsonView>) -> Seq<Seq<JsonView>>
    decreases chunks.len(),
{
    if chunks.len() == 0 {
        Seq::empty()
    } else {
        all_rows(chunks.drop_last()) + data_rows(chunks.last())
    }
}

/// The result after each of `chunks` was absorbed in turn, for the statement that
/// `first` is the response to.
pub open spec fn collected(first: JsonView, chunks: Seq<JsonView>, cap: nat) -> OutputView
    decreases chunks.len(),
{
    if chunks.len() == 0 {
        empty_output(first)
    } else {
        absorbed(collected(first, chunks.drop_last(), cap), chunks.last(), cap)
    }
}

/// Collecting keeps the rows in the order in which they came, and as many of them
/// as the cap allows; the columns stay those of the first response; and the
/// result counts as truncated exactly where the first response says so or rows
/// were left out.
pub proof fn collecting_keeps_the_first_rows(first: JsonView, chunks: Seq<JsonView>, cap: nat)
    ensures
        ({
            let out = collected(first, chunks, cap);
            let rows = all_rows(chunks);
            &&& out.columns == column_names(first)
            &&& out.rows == rows.take(
                if rows.len() < cap {
                    rows.len() as int
                } else {
                    cap as int
                },
            )
            &&& out.truncated == (says_truncated(first) || rows.len() > cap)
        }),
    decreases chunks.len(),
{
    if chunks.len() > 0 {
        let front = chunks.drop_last();
        collecting_keeps_the_first_rows(first, front, cap);
        let data = data_rows(chunks.last());
        let old_rows = all_rows(front);
        let rows = all_rows(chunks);
        let out = collected(first, chunks, cap);
        assert(rows =~= old_rows + data);
        assert(out.rows =~= rows.take(
            if rows.len() < cap {
                rows.len() as int
            } else {
                cap as int
            },
        ));
    } else {
        let none = Seq::<Seq<JsonView>>::empty();
        assert(none.take(0) =~= none);
    }
}

/// Absorbing never takes more rows than the cap allows.
pub proof fn rows_stay_under_the_cap(output: OutputView, value: JsonView, cap: nat)
    requires
        output.rows.len() <= cap,
    ensures
        absorbed(output, value, cap).rows.len() <= cap,
{
}

/// The result of a query says what its fields hold: each column, and each cell of
/// each row, in its place.
pub proof fn results_say_their_fields(output: QueryOutput)
    ensures
        output@.columns.len() == output.columns@.len(),
        forall|i: int|
            0 <= i < output.columns@.len() ==> #[trigger] output@.columns[i]
                == output.columns@[i]@,
        output@.rows.len() == output.rows@.len(),
        forall|k: int|
            0 <= k < output.rows@.len() ==> (#[trigger] output@.rows[k]).len()
                == output.rows@[k]@.len(),
        forall|k: int, j: int|
            0 <= k < output.rows@.len() && 0 <= j < output.rows@[k]@.len()
                ==> #[trigger] output@.rows[k][j] == output.rows@[k]@[j]@,
        output@.truncated == output.truncated,
{
    assert forall|k: int| 0 <= k < output.rows@.len() implies (#[trigger] output@.rows[k]).len()
        == output.rows@[k]@.len() by {
        json::lemma_documents(output.rows@[k]@);
    }
    assert forall|k: int, j: int|
        0 <= k < output.rows@.len() && 0 <= j < output.rows@[k]@.len() implies #[trigger] output@.rows[k][j]
        == output.rows@[k]@[j]@ by {
        json::lemma_documents(output.rows@[k]@);
    }
}

/// A response is taken up cell for cell: behind the rows that are there stands, for
/// each element of its data that there is room for, a row with the same cells, or
/// with the element itself where that is no array. Nothing else changes, but that
/// the result counts as truncated where there was no room for an element.
pub proof fn rows_are_copied_cell_for_cell(
    output: OutputView,
    value: JsonView,
    cap: nat,
    data: Seq<JsonView>,
)
    requires
        value.at(seq!["result"@, "data_array"@]) == Some(JsonView::Array(data)),
    ensures
        ({
            let after = absorbed(output, value, cap);
            let n = output.rows.len();
            &&& n >= cap ==> after.rows.len() == n
            &&& n < cap && n + data.len() <= cap ==> after.rows.len() == n + data.len()
            &&& n < cap && n + data.len() > cap ==> after.rows.len() == cap
            &&& forall|k: int| 0 <= k < n ==> #[trigger] after.rows[k] == output.rows[k]
            &&& forall|k: int|
                n <= k < after.rows.len() ==> (data[k - n] matches JsonView::Array(cells)
                    ==> #[trigger] after.rows[k] == cells)
            &&& forall|k: int, j: int|
                n <= k < after.rows.len() && 0 <= j < after.rows[k].len()
                    ==> #[trigger] after.rows[k][j] == match data[k - n] {
                    JsonView::Array(cells) => cells[j],
                    _ => data[k - n],
                }
            &&& forall|k: int|
                n <= k < after.rows.len() && data[k - n] !is Array ==> (
                #[trigger] after.rows[k]).len() == 1
            &&& after.truncated <==> output.truncated || (data.len() > 0 && n + data.len() > cap)
            &&& after.columns == output.columns
        }),
{
}

/// A response without an array of data adds nothing.
pub proof fn responses_without_data_add_nothing(output: OutputView, value: JsonView, cap: nat)
    requires
        !(value.at(seq!["result"@, "data_array"@]) matches Some(JsonView::Array(_))),
    ensures
        absorbed(output, value, cap) == output,
{
    assert(absorbed(output, value, cap).rows =~= output.rows);
}

/// A result starts without rows, with the names that the response gives its columns
/// (`value` for one without a name), and as truncated exactly where the response
/// says so.
pub proof fn results_start_with_their_columns(value: JsonView, columns: Seq<JsonView>)
    ensures
        ({
            let start = empty_output(value);
            let described = value.at(seq!["manifest"@, "schema"@, "columns"@]);
            &&& start.rows.len() == 0
            &&& start.truncated <==> value.at(seq!["manifest"@, "truncated"@]) == Some(
                JsonView::Bool(true),
            )
            &&& !(described matches Some(JsonView::Array(_))) ==> start.columns.len() == 0
            &&& described == Some(JsonView::Array(columns)) ==> {
                &&& start.columns.len() == columns.len()
                &&& forall|i: int|
                    0 <= i < columns.len() ==> (columns[i].member("name"@) matches Some(
                        JsonView::Text(s),
                    ) ==> #[trigger] start.columns[i] == s)
                &&& forall|i: int|
                    0 <= i < columns.len() && !(columns[i].member("name"@) matches Some(
                        JsonView::Text(_),
                    )) ==> #[trigger] start.columns[i] == "value"@
            }
        }),
{
}

/// Collecting goes on exactly while there is room, to the link that the response
/// gives as a string, and ends where it gives none.
pub proof fn collecting_follows_the_links(
    output: OutputView,
    value: JsonView,
    cap: nat,
    link: Seq<char>,
)
    ensures
        output.rows.len() >= cap ==> continued(output, value, cap) is None,
        output.rows.len() < cap ==> (continued(output, value, cap) == Some(link) <==> value.at(
            seq!["result"@, "next_chunk_internal_link"@],
        ) == Some(JsonView::Text(link))),
        output.rows.len() < cap && !(value.at(
            seq!["result"@, "next_chunk_internal_link"@],
        ) matches Some(JsonView::Text(_))) ==> continued(output, value, cap) is None,
{
}

} // verus!
