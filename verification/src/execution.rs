//! Running a statement: from its first response to its collected rows.

use crate::config::{ConfigView, DatabricksConfig};
use crate::http;
use crate::http::{HttpRequest, RequestView};
use crate::json::{Json, JsonView};
use crate::rows;
use crate::rows::{OutputView, QueryOutput, RowCollector};
use crate::statement;
use crate::statement::{PollStep, PollView, StatementPoll};
use vstd::prelude::*;

verus! {

/// Where a statement that is being run stands.
enum Phase {
    Polling(StatementPoll),
    Collecting(RowCollector),
}

/// A statement that is being run, and how many rows of it are wanted at most.
pub struct SqlRun {
    cap: usize,
    phase: Phase,
}

/// Where a run stands: how many responses it has looked at, or what it has
/// collected.
pub enum RunView {
    Polling { cap: nat, checked: nat },
    Collecting { cap: nat, output: OutputView },
}

/// What to do next for a run: get `path`, after a pause of a second where `pause`
/// says so, and go on with the reply; or stop, with rows or with a message.
pub enum SqlStep {
    Get { path: String, pause: bool, run: SqlRun },
    Done(QueryOutput),
    Fail(String),
}

/// What a step says.
pub enum StepView {
    Get { path: Seq<char>, pause: bool, run: RunView },
    Done(OutputView),
    Fail(Seq<char>),
}

impl View for SqlRun {
    type V = RunView;

    closed spec fn view(&self) -> RunView {
        match self.phase {
            Phase::Polling(poll) => RunView::Polling { cap: self.cap as nat, checked: poll@ },
            Phase::Collecting(rows) => RunView::Collecting {
                cap: rows.cap(),
                output: rows.output(),
            },
        }
    }
}

impl View for SqlStep {
    type V = StepView;

    open spec fn view(&self) -> StepView {
        match self {
            SqlStep::Get { path, pause, run } => StepView::Get {
                path: path@,
                pause: *pause,
                run: run@,
            },
            SqlStep::Done(output) => StepView::Done(output@),
            SqlStep::Fail(message) => StepView::Fail(message@),
        }
    }
}

/// What to do after `value` was collected, and what is collected is `output`.
pub open spec fn collect_step(output: OutputView, value: JsonView, cap: nat) -> StepView {
    let after = rows::absorbed(output, value, cap);
    match rows::continued(after, value, cap) {
        Some(link) => StepView::Get {
            path: link,
            pause: false,
            run: RunView::Collecting { cap, output: after },
        },
        None => StepView::Done(after),
    }
}

/// What to do for a run after a reply. A message ends it. While the run polls, the
/// response decides; once the statement is finished, its rows are collected chunk
/// by chunk.
pub open spec fn run_step(run: RunView, reply: Result<JsonView, Seq<char>>) -> StepView {
    match reply {
        Err(message) => StepView::Fail(message),
        Ok(value) => match run {
            RunView::Polling { cap, checked } => match statement::poll_step(checked, value) {
                PollView::Fail(message) => StepView::Fail(message),
                PollView::Fetch(path) => StepView::Get {
                    path,
                    pause: true,
                    run: RunView::Polling { cap, checked: checked + 1 },
                },
                PollView::Finished => collect_step(rows::empty_output(value), value, cap),
            },
            RunView::Collecting { cap, output } => collect_step(output, value, cap),
        },
    }
}

/// The request that starts the statement `sql`.
pub open spec fn first_request(config: ConfigView, sql: Seq<char>) -> RequestView {
    RequestView {
        method: http::HttpMethod::Post,
        url: http::address(config.base_url, "/api/2.0/sql/statements"@),
        token: config.token,
        body: Some(statement::statement_document(config, sql)),
    }
}

/// The request that gets `path`.
pub open spec fn get_request(config: ConfigView, path: Seq<char>) -> RequestView {
    RequestView {
        method: http::HttpMethod::Get,
        url: http::address(config.base_url, path),
        token: config.token,
        body: None,
    }
}

/// Makes the request that starts a statement.
pub fn statement_request(config: &DatabricksConfig, sql: &str) -> (r: HttpRequest)
    ensures
        r@ == first_request(config@, sql@),
{
    http::make_request(
        config,
        http::HttpMethod::Post,
        "/api/2.0/sql/statements",
        Some(statement::statement_body(config, sql)),
    )
}

/// Makes the request that gets `path`.
pub fn fetch_request(config: &DatabricksConfig, path: &str) -> (r: HttpRequest)
    ensures
        r@ == get_request(config@, path@),
{
    http::make_request(config, http::HttpMethod::Get, path, None)
}

impl SqlRun {
    /// A run of which at most `cap` rows are wanted.
    pub fn new(cap: usize) -> (r: SqlRun)
        ensures
            r@ == (RunView::Polling { cap: cap as nat, checked: 0 }),
    {
        SqlRun { cap, phase: Phase::Polling(StatementPoll::new()) }
    }

    /// Goes on after a reply.
    pub fn advance(self, reply: Result<Json, String>) -> (r: SqlStep)
        ensures
            r@ == run_step(self@, http::said(reply)),
    {
        let value: Json = match reply {
            Ok(value) => value,
            Err(message) => {
                return SqlStep::Fail(message);
            },
        };
        let cap: usize = self.cap;
        let mut collector: RowCollector = match self.phase {
            Phase::Polling(poll) => {
                let mut poll: StatementPoll = poll;
                match poll.next(&value) {
                    PollStep::Fail(message) => {
                        return SqlStep::Fail(message);
                    },
                    PollStep::Fetch(path) => {
                        return SqlStep::Get {
                            path,
                            pause: true,
                            run: SqlRun { cap, phase: Phase::Polling(poll) },
                        };
                    },
                    PollStep::Finished => RowCollector::new(&value, cap),
                }
            },
            Phase::Collecting(collector) => collector,
        };
        match collector.absorb(&value) {
            Some(path) => SqlStep::Get {
                path,
                pause: false,
                run: SqlRun { cap, phase: Phase::Collecting(collector) },
            },
            None => SqlStep::Done(collector.finish()),
        }
    }
}

// --------------------------------------------------------------------- laws

/// The last step of a run that is given `replies`, one for each step that asks
/// for one.
pub open spec fn driven(run: RunView, replies: Seq<Result<JsonView, Seq<char>>>) -> StepView
    recommends
        replies.len() > 0,
    decreases replies.len(),
{
    let step = run_step(run, replies[0]);
    match step {
        StepView::Get { run: next, .. } => if replies.len() > 1 {
            driven(next, replies.skip(1))
        } else {
            step
        },
        _ => step,
    }
}

/// Whether a run has no more rows than are wanted of it.
pub open spec fn within_cap(run: RunView) -> bool {
    match run {
        RunView::Polling { .. } => true,
        RunView::Collecting { cap, output } => output.rows.len() <= cap,
    }
}

/// How many rows are wanted of a run at most.
pub open spec fn cap_of(run: RunView) -> nat {
    match run {
        RunView::Polling { cap, .. } => cap,
        RunView::Collecting { cap, .. } => cap,
    }
}

/// However it is answered, a run never ends with more rows than are wanted.
pub proof fn runs_respect_the_cap(run: RunView, replies: Seq<Result<JsonView, Seq<char>>>)
    requires
        within_cap(run),
        replies.len() > 0,
    ensures
        driven(run, replies) matches StepView::Done(output) ==> output.rows.len() <= cap_of(run),
    decreases replies.len(),
{
    if let StepView::Get { run: next, .. } = run_step(run, replies[0]) {
        if replies.len() > 1 {
            runs_respect_the_cap(next, replies.skip(1));
        }
    }
}

/// Whether every reply only makes the run wait for another one.
pub open spec fn keeps_waiting(run: RunView, replies: Seq<Result<JsonView, Seq<char>>>) -> bool
    decreases replies.len(),
{
    replies.len() > 0 ==> (run_step(run, replies[0]) matches StepView::Get {
        pause,
        run: next,
        ..
    } && pause && keeps_waiting(next, replies.skip(1)))
}

/// A statement is waited for at most sixty times, whatever the replies say.
pub proof fn waiting_ends(run: RunView, replies: Seq<Result<JsonView, Seq<char>>>)
    requires
        keeps_waiting(run, replies),
    ensures
        replies.len() > 0 ==> (run matches RunView::Polling { checked, .. } && checked
            + replies.len() <= statement::POLL_LIMIT),
    decreases replies.len(),
{
    if replies.len() > 0 {
        if let StepView::Get { run: next, .. } = run_step(run, replies[0]) {
            waiting_ends(next, replies.skip(1));
        }
    }
}

/// A message in place of a response ends a run, with that message.
pub proof fn messages_end_runs(run: RunView, message: Seq<char>)
    ensures
        run_step(run, Err(message)) == StepView::Fail(message),
{
}

/// `documents` as replies.
pub open spec fn answered(documents: Seq<JsonView>) -> Seq<Result<JsonView, Seq<char>>> {
    Seq::new(documents.len(), |i: int| Ok(documents[i]))
}

/// A run that has collected `seen` and is given `chunks` ends with the rows of
/// those up to a chunk behind which there is nothing more, or nothing more is
/// wanted.
proof fn lemma_collecting(cap: nat, first: JsonView, seen: Seq<JsonView>, chunks: Seq<JsonView>)
    requires
        chunks.len() > 0,
    ensures
        driven(
            RunView::Collecting { cap, output: rows::collected(first, seen, cap) },
            answered(chunks),
        ) matches StepView::Done(output) ==> exists|k: int|
            0 < k <= chunks.len() && #[trigger] ends_with(
                output,
                first,
                seen + chunks.take(k),
                cap,
            ),
    decreases chunks.len(),
{
    let run = RunView::Collecting { cap, output: rows::collected(first, seen, cap) };
    let more = seen.push(chunks[0]);
    assert(more.drop_last() =~= seen);
    assert(seen + chunks.take(1) =~= more);
    let step = run_step(run, answered(chunks)[0]);
    match step {
        StepView::Get { .. } => {
            if chunks.len() > 1 {
                lemma_collecting(cap, first, more, chunks.skip(1));
                assert(answered(chunks).skip(1) =~= answered(chunks.skip(1)));
                if let StepView::Done(output) = driven(run, answered(chunks)) {
                    let k = choose|k: int|
                        0 < k <= chunks.len() - 1 && #[trigger] ends_with(
                            output,
                            first,
                            more + chunks.skip(1).take(k),
                            cap,
                        );
                    assert(more + chunks.skip(1).take(k) =~= seen + chunks.take(k + 1));
                    assert(ends_with(output, first, seen + chunks.take(k + 1), cap));
                }
            }
        },
        StepView::Done(output) => {
            assert(more.last() == chunks[0]);
            assert(ends_with(output, first, seen + chunks.take(1), cap));
        },
        StepView::Fail(_) => {},
    }
}

/// Whether `output` is what the responses `seen` hold, and the last of them is
/// where collecting ends: nothing more is wanted, or there is nothing more.
pub open spec fn ends_with(
    output: OutputView,
    first: JsonView,
    seen: Seq<JsonView>,
    cap: nat,
) -> bool {
    &&& seen.len() > 0
    &&& output == rows::collected(first, seen, cap)
    &&& output.rows.len() >= cap || rows::next_chunk(seen.last()) is None
}

/// A statement that finished ends, if it ends with rows, with the rows of its
/// response and of the chunks behind it, up to one behind which there is nothing
/// more or nothing more is wanted.
pub proof fn finished_statements_are_collected(
    cap: nat,
    checked: nat,
    first: JsonView,
    chunks: Seq<JsonView>,
)
    requires
        checked < statement::POLL_LIMIT,
        statement::verdict_of(first) is Finished,
    ensures
        driven(RunView::Polling { cap, checked }, answered(seq![first] + chunks)) matches
            StepView::Done(output) ==> exists|k: int|
            0 <= k <= chunks.len() && #[trigger] ends_with(
                output,
                first,
                seq![first] + chunks.take(k),
                cap,
            ),
{
    let run = RunView::Polling { cap, checked };
    let all = seq![first] + chunks;
    let one = seq![first];
    assert(one.drop_last() =~= Seq::<JsonView>::empty());
    assert(rows::collected(first, one.drop_last(), cap) == rows::empty_output(first));
    assert(rows::collected(first, one, cap) == rows::absorbed(
        rows::empty_output(first),
        first,
        cap,
    ));
    assert(all.skip(1) =~= chunks);
    assert(answered(all).skip(1) =~= answered(chunks));
    match run_step(run, answered(all)[0]) {
        StepView::Get { .. } => {
            if chunks.len() > 0 {
                lemma_collecting(cap, first, one, chunks);
            }
        },
        StepView::Done(output) => {
            assert(one + chunks.take(0) =~= one);
            assert(ends_with(output, first, one + chunks.take(0), cap));
        },
        StepView::Fail(_) => {},
    }
}

/// Replies that only make a run wait change nothing but the count of responses.
proof fn lemma_waited(
    cap: nat,
    checked: nat,
    waits: Seq<Result<JsonView, Seq<char>>>,
    rest: Seq<Result<JsonView, Seq<char>>>,
)
    requires
        keeps_waiting(RunView::Polling { cap, checked }, waits),
        rest.len() > 0,
    ensures
        driven(RunView::Polling { cap, checked }, waits + rest) == driven(
            RunView::Polling { cap, checked: checked + waits.len() },
            rest,
        ),
    decreases waits.len(),
{
    if waits.len() == 0 {
        assert(waits + rest =~= rest);
    } else {
        assert((waits + rest).skip(1) =~= waits.skip(1) + rest);
        lemma_waited(cap, checked + 1, waits.skip(1), rest);
    }
}

/// A query returns the first rows of its statement: after fewer than sixty waits,
/// a statement that finishes ends, if it ends with rows, with the rows of its
/// response and of the chunks behind it, in order and up to the cap. It reads on
/// until the cap is reached or there is no chunk left, and it counts as truncated
/// exactly where its response says so or rows that were read are left out.
pub proof fn queries_return_the_first_rows(
    cap: nat,
    waits: Seq<Result<JsonView, Seq<char>>>,
    first: JsonView,
    chunks: Seq<JsonView>,
)
    requires
        keeps_waiting(RunView::Polling { cap, checked: 0 }, waits),
        waits.len() < statement::POLL_LIMIT,
        statement::verdict_of(first) is Finished,
    ensures
        driven(
            RunView::Polling { cap, checked: 0 },
            waits + answered(seq![first] + chunks),
        ) matches StepView::Done(output) ==> exists|k: int|
            0 <= k <= chunks.len() && #[trigger] holds_first_rows(
                output,
                first,
                seq![first] + chunks.take(k),
                cap,
            ),
{
    let rest = answered(seq![first] + chunks);
    lemma_waited(cap, 0, waits, rest);
    finished_statements_are_collected(cap, waits.len(), first, chunks);
    let run = RunView::Polling { cap, checked: 0 };
    if let StepView::Done(output) = driven(run, waits + rest) {
        let k = choose|k: int|
            0 <= k <= chunks.len() && #[trigger] ends_with(
                output,
                first,
                seq![first] + chunks.take(k),
                cap,
            );
        rows::collecting_keeps_the_first_rows(first, seq![first] + chunks.take(k), cap);
        assert(holds_first_rows(output, first, seq![first] + chunks.take(k), cap));
    }
}

/// A run that collects and is given the last chunk ends with rows.
proof fn lemma_collecting_ends(cap: nat, output: OutputView, chunks: Seq<JsonView>)
    requires
        chunks.len() > 0,
        rows::next_chunk(chunks.last()) is None,
    ensures
        driven(RunView::Collecting { cap, output }, answered(chunks)) is Done,
    decreases chunks.len(),
{
    let run = RunView::Collecting { cap, output };
    if let StepView::Get { run: next, .. } = run_step(run, answered(chunks)[0]) {
        assert(answered(chunks).skip(1) =~= answered(chunks.skip(1)));
        lemma_collecting_ends(cap, rows::absorbed(output, chunks[0], cap), chunks.skip(1));
    }
}

/// A statement that finishes after fewer than sixty waits ends with rows once it is
/// given all its chunks.
pub proof fn finished_statements_end_with_rows(
    cap: nat,
    waits: Seq<Result<JsonView, Seq<char>>>,
    first: JsonView,
    chunks: Seq<JsonView>,
)
    requires
        keeps_waiting(RunView::Polling { cap, checked: 0 }, waits),
        waits.len() < statement::POLL_LIMIT,
        statement::verdict_of(first) is Finished,
        rows::next_chunk((seq![first] + chunks).last()) is None,
    ensures
        driven(
            RunView::Polling { cap, checked: 0 },
            waits + answered(seq![first] + chunks),
        ) is Done,
{
    let all = seq![first] + chunks;
    lemma_waited(cap, 0, waits, answered(all));
    assert(answered(all).skip(1) =~= answered(chunks));
    if chunks.len() > 0 {
        assert(all.last() == chunks.last());
        lemma_collecting_ends(
            cap,
            rows::absorbed(rows::empty_output(first), first, cap),
            chunks,
        );
    } else {
        assert(all.last() == first);
    }
}

/// Whether `output` holds the first rows of the responses `seen`, up to the cap,
/// and there was no reason to read on.
pub open spec fn holds_first_rows(
    output: OutputView,
    first: JsonView,
    seen: Seq<JsonView>,
    cap: nat,
) -> bool {
    let all = rows::all_rows(seen);
    &&& output.columns == rows::column_names(first)
    &&& output.rows == all.take(
        if all.len() < cap {
            all.len() as int
        } else {
            cap as int
        },
    )
    &&& output.truncated == (rows::says_truncated(first) || all.len() > cap)
    &&& all.len() >= cap || rows::next_chunk(seen.last()) is None
}

/// A statement is started by posting its settings to the workspace, and everything
/// else is got, without a body: from the workspace, or from where the path names its
/// scheme. Each request carries the token of the connection.
pub proof fn requests_go_to_the_workspace(config: ConfigView, sql: Seq<char>, path: Seq<char>)
    ensures
        ({
            let first = first_request(config, sql);
            &&& first.method is Post
            &&& first.url == config.base_url + "/api/2.0/sql/statements"@
            &&& first.token == config.token
            &&& first.body == Some(statement::statement_document(config, sql))
        }),
        ({
            let next = get_request(config, path);
            &&& next.method is Get
            &&& next.token == config.token
            &&& next.body is None
            &&& next.url == if "http://"@.is_prefix_of(path) || "https://"@.is_prefix_of(path) {
                path
            } else {
                config.base_url + path
            }
        }),
{
    reveal_strlit("/api/2.0/sql/statements");
    reveal_strlit("http://");
    reveal_strlit("https://");
    let api = "/api/2.0/sql/statements"@;
    assert(api[0] == '/' && "http://"@[0] == 'h' && "https://"@[0] == 'h');
    if api.take("http://"@.len() as int) == "http://"@ {
        assert(api.take("http://"@.len() as int)[0] == '/');
    }
    if api.take("https://"@.len() as int) == "https://"@ {
        assert(api.take("https://"@.len() as int)[0] == '/');
    }
    assert("http://"@.is_prefix_of(path) <==> "http://"@.len() <= path.len() && path.take(
        "http://"@.len() as int,
    ) == "http://"@);
    assert("https://"@.is_prefix_of(path) <==> "https://"@.len() <= path.len() && path.take(
        "https://"@.len() as int,
    ) == "https://"@);
}

/// While a statement is waited for, what its response decides is done: a failure ends
/// the run, and a statement that is asked for again is asked for after a pause, with
/// one response more counted and the same number of rows wanted.
pub proof fn runs_wait_as_the_response_decides(
    cap: nat,
    checked: nat,
    value: JsonView,
    text: Seq<char>,
)
    ensures
        ({
            let step = run_step(RunView::Polling { cap, checked }, Ok(value));
            let decided = statement::poll_step(checked, value);
            &&& decided == PollView::Fail(text) ==> step == StepView::Fail(text)
            &&& decided == PollView::Fetch(text) ==> step == (StepView::Get {
                path: text,
                pause: true,
                run: RunView::Polling { cap, checked: checked + 1 },
            })
            &&& decided is Finished ==> step == run_step(
                RunView::Collecting { cap, output: rows::empty_output(value) },
                Ok(value),
            )
        }),
{
}

/// While rows are collected, each response is taken up, and the run goes on to the
/// next chunk without a pause, or ends with what is collected.
pub proof fn runs_collect_chunk_by_chunk(
    cap: nat,
    output: OutputView,
    value: JsonView,
    link: Seq<char>,
)
    ensures
        ({
            let step = run_step(RunView::Collecting { cap, output }, Ok(value));
            let after = rows::absorbed(output, value, cap);
            let more = value.at(seq!["result"@, "next_chunk_internal_link"@]);
            &&& after.rows.len() < cap && more == Some(JsonView::Text(link)) ==> step == (
            StepView::Get {
                path: link,
                pause: false,
                run: RunView::Collecting { cap, output: after },
            })
            &&& after.rows.len() >= cap || !(more matches Some(JsonView::Text(_))) ==> step
                == StepView::Done(after)
        }),
{
    rows::collecting_follows_the_links(rows::absorbed(output, value, cap), value, cap, link);
}

/// A statement that succeeds in one response is answered with that response: a row
/// for each element of its data, up to the cap, with the same cells in the same
/// places; and it counts as truncated exactly where the response says so or a row is
/// left out.
pub proof fn successful_responses_are_returned_cell_for_cell(
    cap: nat,
    checked: nat,
    value: JsonView,
    data: Seq<JsonView>,
)
    requires
        checked < 60,
        value.at(seq!["status"@, "state"@]) == Some(JsonView::Text("SUCCEEDED"@)),
        value.at(seq!["result"@, "data_array"@]) == Some(JsonView::Array(data)),
        !(value.at(seq!["result"@, "next_chunk_internal_link"@]) matches Some(JsonView::Text(_))),
    ensures
        run_step(RunView::Polling { cap, checked }, Ok(value)) matches StepView::Done(output) && {
            &&& data.len() <= cap ==> output.rows.len() == data.len()
            &&& data.len() > cap ==> output.rows.len() == cap
            &&& forall|k: int|
                0 <= k < output.rows.len() ==> (data[k] matches JsonView::Array(cells)
                    ==> #[trigger] output.rows[k] == cells)
            &&& forall|k: int|
                0 <= k < output.rows.len() && data[k] !is Array ==> #[trigger] output.rows[k]
                    == seq![data[k]]
            &&& output.truncated <==> data.len() > cap || value.at(
                seq!["manifest"@, "truncated"@],
            ) == Some(JsonView::Bool(true))
        },
{
    statement::statements_are_given_up_after_sixty_responses(checked, value);
    let start = rows::empty_output(value);
    rows::results_start_with_their_columns(value, Seq::empty());
    rows::rows_are_copied_cell_for_cell(start, value, cap, data);
    rows::collecting_follows_the_links(
        rows::absorbed(start, value, cap),
        value,
        cap,
        Seq::empty(),
    );
}

/// A step says what it carries.
pub proof fn steps_say_what_they_carry(
    path: String,
    pause: bool,
    run: SqlRun,
    output: QueryOutput,
    message: String,
)
    ensures
        (SqlStep::Get { path, pause, run })@ == (StepView::Get { path: path@, pause, run: run@ }),
        SqlStep::Done(output)@ == StepView::Done(output@),
        SqlStep::Fail(message)@ == StepView::Fail(message@),
{
}

} // verus!
