//! Report assembly for the embedded storage layer.
//!
//! The storage layer itself — opening the local database file and
//! running statements — lives outside this crate. What is verified
//! here is everything computed from its outcomes: classifying a
//! statement, rendering a result table, and assembling the health and
//! query reports, with every field of each report pinned down.

use vstd::prelude::*;

use crate::text::{dec_str_of, trim_ws, trim_ws_spec, u64_dec_string};

verus! {

/// A health snapshot of the storage layer.
#[derive(Debug, Clone, PartialEq, Eq)]
pub struct DatabaseHealth {
    pub status: String,
    pub message: String,
    pub last_checked: String,
    pub response_time: Option<u64>,
}

/// The outcome of running one statement.
#[derive(Debug, Clone, PartialEq, Eq)]
pub struct QueryResult {
    pub status: String,
    pub message: String,
    pub result: Option<String>,
    pub response_time: u64,
    pub last_executed: String,
}

/// Builds the health report from the probe's outcome: `initialized`
/// says whether a connection exists at all, `ok` whether the probe
/// statement succeeded, `error_text` carries the storage error when it
/// did not. `timestamp` and `response_ms` are measured by the caller.
pub fn health_report(
    initialized: bool,
    ok: bool,
    error_text: &str,
    response_ms: u64,
    timestamp: String,
) -> (r: DatabaseHealth)
    ensures
        r.last_checked == timestamp,
        !initialized ==> r.status@ == "disconnected"@ && r.message@ == "Database not initialized"@
            && r.response_time is None,
        initialized && ok ==> r.status@ == "healthy"@ && r.message@ == "Database is healthy ("@
            + dec_str_of(response_ms as int) + "ms)"@ && r.response_time == Some(response_ms),
        initialized && !ok ==> r.status@ == "error"@ && r.message@ == "Database error: "@
            + error_text@ && r.response_time == Some(response_ms),
{
    if !initialized {
        DatabaseHealth {
            status: "disconnected".to_owned(),
            message: "Database not initialized".to_owned(),
            last_checked: timestamp,
            response_time: None,
        }
    } else if ok {
        let message = "Database is healthy (".to_owned().concat(
            u64_dec_string(response_ms).as_str(),
        ).concat("ms)");
        DatabaseHealth {
            status: "healthy".to_owned(),
            message,
            last_checked: timestamp,
            response_time: Some(response_ms),
        }
    } else {
        DatabaseHealth {
            status: "error".to_owned(),
            message: "Database error: ".to_owned().concat(error_text),
            last_checked: timestamp,
            response_time: Some(response_ms),
        }
    }
}

/// `c` equals the upper-case ASCII letter `u`, ignoring ASCII case.
pub open spec fn ascii_eqi(c: char, u: char) -> bool {
    c == u || c as int == u as int + 32
}

/// The statement, after trimming, starts with the keyword SELECT in
/// any ASCII case mix: such statements return rows, all others are
/// executed for their effect.
pub open spec fn spec_is_select_query(q: Seq<char>) -> bool {
    let t = trim_ws_spec(q);
    t.len() >= 6 && ascii_eqi(t[0], 'S') && ascii_eqi(t[1], 'E') && ascii_eqi(t[2], 'L')
        && ascii_eqi(t[3], 'E') && ascii_eqi(t[4], 'C') && ascii_eqi(t[5], 'T')
}

/// Decides whether a statement is a row-returning SELECT, as
/// [`spec_is_select_query`].
pub fn is_select_query(q: &str) -> (sel: bool)
    ensures
        sel == spec_is_select_query(q@),
{
    let t = trim_ws(q);
    let s = t.as_str();
    if s.unicode_len() < 6 {
        return false;
    }
    let c0 = s.get_char(0);
    let c1 = s.get_char(1);
    let c2 = s.get_char(2);
    let c3 = s.get_char(3);
    let c4 = s.get_char(4);
    let c5 = s.get_char(5);
    (c0 == 'S' || c0 == 's') && (c1 == 'E' || c1 == 'e') && (c2 == 'L' || c2 == 'l') && (c3 == 'E'
        || c3 == 'e') && (c4 == 'C' || c4 == 'c') && (c5 == 'T' || c5 == 't')
}

/// The values of one row joined with a column separator, as the
/// standard join: the separator stands between elements only.
pub open spec fn join_sep(parts: Seq<Seq<char>>, sep: Seq<char>) -> Seq<char>
    decreases parts.len(),
{
    if parts.len() == 0 {
        Seq::empty()
    } else if parts.len() == 1 {
        parts[0]
    } else {
        join_sep(parts.drop_last(), sep) + sep + parts.last()
    }
}

/// `n` copies of `c`.
pub open spec fn repeat_char(c: char, n: int) -> Seq<char>
    decreases n,
{
    if n <= 0 {
        Seq::empty()
    } else {
        repeat_char(c, n - 1).push(c)
    }
}

/// Joins string values with the column separator.
fn join_row(parts: &Vec<String>) -> (r: String)
    ensures
        r@ == join_sep(parts.deep_view(), " | "@),
{
    let ghost model = parts.deep_view();
    let mut r = String::new();
    let mut i: usize = 0;
    proof {
        assert(model.take(0) =~= Seq::<Seq<char>>::empty());
    }
    while i < parts.len()
        invariant
            0 <= i <= parts@.len(),
            model == parts.deep_view(),
            model.len() == parts@.len(),
            r@ == join_sep(model.take(i as int), " | "@),
        decreases parts@.len() - i,
    {
        proof {
            assert(model.take(i + 1).drop_last() =~= model.take(i as int));
            assert(model.take(i + 1).last() == model[i as int]);
            assert(model[i as int] == parts@[i as int]@);
        }
        if i == 0 {
            r = parts[0].clone();
            proof {
                assert(model.take(1)[0] == model[0]);
            }
        } else {
            r = r.concat(" | ");
            r = r.concat(parts[i].as_str());
        }
        i = i + 1;
    }
    proof {
        assert(model.take(parts@.len() as int) =~= model);
    }
    r
}

/// A rule of `n` dashes.
fn dash_rule(n: usize) -> (r: String)
    ensures
        r@ == repeat_char('-', n as int),
{
    let mut r = String::new();
    let mut i: usize = 0;
    proof {
        reveal_strlit("-");
    }
    while i < n
        invariant
            0 <= i <= n,
            r@ == repeat_char('-', i as int),
        decreases n - i,
    {
        r = r.concat("-");
        proof {
            reveal_strlit("-");
            assert("-"@ =~= seq!['-']);
            assert(r@ =~= repeat_char('-', i + 1));
        }
        i = i + 1;
    }
    r
}

/// The row block of a result table: each row joined with the column
/// separator and ended by a line feed.
pub open spec fn rows_text(rows: Seq<Seq<Seq<char>>>) -> Seq<char>
    decreases rows.len(),
{
    if rows.len() == 0 {
        Seq::empty()
    } else {
        rows_text(rows.drop_last()) + join_sep(rows.last(), " | "@) + "\n"@
    }
}

/// The rendered result table: when there are columns, a header of the
/// column names joined with the column separator, a dash rule of the
/// header's width, then one line per row; with no columns, the rows
/// alone.
pub open spec fn spec_query_table(cols: Seq<Seq<char>>, rows: Seq<Seq<Seq<char>>>) -> Seq<char> {
    let header = join_sep(cols, " | "@);
    let head_block = if cols.len() > 0 {
        header + "\n"@ + repeat_char('-', header.len() as int) + "\n"@
    } else {
        Seq::empty()
    };
    head_block + rows_text(rows)
}

/// Renders the rows a SELECT returned, as [`spec_query_table`].
pub fn format_query_table(columns: &Vec<String>, rows: &Vec<Vec<String>>) -> (out: String)
    ensures
        out@ == spec_query_table(columns.deep_view(), rows.deep_view()),
{
    let ghost rows_model = rows.deep_view();
    let mut out = String::new();
    if columns.len() > 0 {
        let header = join_row(columns);
        let rule = dash_rule(header.as_str().unicode_len());
        out = out.concat(header.as_str());
        out = out.concat("\n");
        out = out.concat(rule.as_str());
        out = out.concat("\n");
    }
    let ghost head_block = out@;
    let mut i: usize = 0;
    proof {
        assert(rows_model.take(0) =~= Seq::<Seq<Seq<char>>>::empty());
        assert(out@ =~= head_block + rows_text(rows_model.take(0)));
    }
    while i < rows.len()
        invariant
            0 <= i <= rows@.len(),
            rows_model == rows.deep_view(),
            rows_model.len() == rows@.len(),
            out@ == head_block + rows_text(rows_model.take(i as int)),
        decreases rows@.len() - i,
    {
        proof {
            assert(rows_model.take(i + 1).drop_last() =~= rows_model.take(i as int));
            assert(rows_model.take(i + 1).last() == rows_model[i as int]);
            assert(rows_model[i as int] == rows@[i as int].deep_view());
        }
        let line = join_row(&rows[i]);
        out = out.concat(line.as_str());
        out = out.concat("\n");
        proof {
            assert(out@ =~= head_block + rows_text(rows_model.take(i + 1)));
        }
        i = i + 1;
    }
    proof {
        assert(rows_model.take(rows@.len() as int) =~= rows_model);
        assert(out@ =~= spec_query_table(columns.deep_view(), rows.deep_view()));
    }
    out
}

/// What running one statement came to; the caller drives the storage
/// layer and reports the outcome here.
pub enum QueryOutcome {
    /// No connection exists.
    NotInitialized,
    /// A SELECT ran and returned these column names and row values.
    SelectRows { columns: Vec<String>, rows: Vec<Vec<String>> },
    /// A non-SELECT statement ran and affected this many rows.
    RowsAffected { count: u64 },
    /// The SELECT could not be prepared.
    PrepareFailed { detail: String },
    /// The prepared SELECT failed while running.
    QueryFailed { detail: String },
    /// The non-SELECT statement failed.
    ExecFailed { detail: String },
}

/// Assembles the query report, pinning every field for every outcome:
/// the status tag, the human-readable message with the measured time
/// or the storage error woven in, and the rendered result.
pub fn query_report(outcome: QueryOutcome, response_ms: u64, timestamp: String) -> (r: QueryResult)
    ensures
        r.last_executed == timestamp,
        r.response_time == response_ms,
        outcome is NotInitialized ==> r.status@ == "error"@ && r.message@
            == "Database not initialized"@ && r.result is None,
        outcome matches QueryOutcome::SelectRows { columns, rows } ==> r.status@ == "success"@
            && r.message@ == "Query returned "@ + dec_str_of(rows.deep_view().len() as int)
            + " rows ("@ + dec_str_of(response_ms as int) + "ms)"@ && (r.result matches Some(t)
            && t@ == spec_query_table(columns.deep_view(), rows.deep_view())),
        outcome matches QueryOutcome::RowsAffected { count } ==> r.status@ == "success"@
            && r.message@ == "Query executed successfully ("@ + dec_str_of(response_ms as int)
            + "ms)"@ && (r.result matches Some(t) && t@ == "Rows affected: "@ + dec_str_of(
            count as int,
        )),
        outcome matches QueryOutcome::PrepareFailed { detail } ==> r.status@ == "error"@
            && r.message@ == "Error preparing query: "@ + detail@ && (r.result matches Some(t)
            && t@ == "Error details: "@ + detail@),
        outcome matches QueryOutcome::QueryFailed { detail } ==> r.status@ == "error"@
            && r.message@ == "Error executing query: "@ + detail@ && (r.result matches Some(t)
            && t@ == "Error details: "@ + detail@),
        outcome matches QueryOutcome::ExecFailed { detail } ==> r.status@ == "error"@
            && r.message@ == "Query execution error: "@ + detail@ && (r.result matches Some(t)
            && t@ == "Error details: "@ + detail@),
{
    match outcome {
        QueryOutcome::NotInitialized => QueryResult {
            status: "error".to_owned(),
            message: "Database not initialized".to_owned(),
            result: None,
            response_time: response_ms,
            last_executed: timestamp,
        },
        QueryOutcome::SelectRows { columns, rows } => {
            let table = format_query_table(&columns, &rows);
            let message = "Query returned ".to_owned().concat(
                u64_dec_string(rows.len() as u64).as_str(),
            ).concat(" rows (").concat(u64_dec_string(response_ms).as_str()).concat("ms)");
            proof {
                assert(rows@.len() == rows.deep_view().len());
            }
            QueryResult {
                status: "success".to_owned(),
                message,
                result: Some(table),
                response_time: response_ms,
                last_executed: timestamp,
            }
        },
        QueryOutcome::RowsAffected { count } => {
            let message = "Query executed successfully (".to_owned().concat(
                u64_dec_string(response_ms).as_str(),
            ).concat("ms)");
            let detail_text = "Rows affected: ".to_owned().concat(u64_dec_string(count).as_str());
            QueryResult {
                status: "success".to_owned(),
                message,
                result: Some(detail_text),
                response_time: response_ms,
                last_executed: timestamp,
            }
        },
        QueryOutcome::PrepareFailed { detail } => QueryResult {
            status: "error".to_owned(),
            message: "Error preparing query: ".to_owned().concat(detail.as_str()),
            result: Some("Error details: ".to_owned().concat(detail.as_str())),
            response_time: response_ms,
            last_executed: timestamp,
        },
        QueryOutcome::QueryFailed { detail } => QueryResult {
            status: "error".to_owned(),
            message: "Error executing query: ".to_owned().concat(detail.as_str()),
            result: Some("Error details: ".to_owned().concat(detail.as_str())),
            response_time: response_ms,
            last_executed: timestamp,
        },
        QueryOutcome::ExecFailed { detail } => QueryResult {
            status: "error".to_owned(),
            message: "Query execution error: ".to_owned().concat(detail.as_str()),
            result: Some("Error details: ".to_owned().concat(detail.as_str())),
            response_time: response_ms,
            last_executed: timestamp,
        },
    }
}

} // verus!
