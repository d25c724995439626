//! Finding out where a session's foreground process works.
//!
//! The answer comes from two queries that the caller runs: one lists the
//! children of the session's shell, the other the working directory of one
//! process. This module says what to ask and reads the answers. The answer
//! is advisory: the processes may change between the queries.

use crate::text::{decimal, decimal_string, lines, parse_u32, parsed_u32, rows_of, split_lines,
    string_from_chars, texts_of, to_chars, trim, trimmed};
use vstd::prelude::*;

verus! {

/// Why the working directory of a session could not be told.
#[derive(Clone, Debug, PartialEq, Eq)]
pub enum QueryError {
    /// No session is registered under the identifier.
    NotFound,
    /// The session's process identifier was never learnt.
    NoPid,
    /// The query could not be run; `detail` is the text of the error.
    QueryFailed { detail: String },
    /// The query ran and reported failure.
    QueryRejected,
    /// The query's output names no working directory.
    NoCwd,
}

impl QueryError {
    /// The words of the error.
    pub open spec fn message_text(self) -> Seq<char> {
        match self {
            QueryError::NotFound => "PTY not found"@,
            QueryError::NoPid => "No PID"@,
            QueryError::QueryFailed { detail } => "lsof failed: "@ + detail@,
            QueryError::QueryRejected => "lsof returned error"@,
            QueryError::NoCwd => "CWD not found in lsof output"@,
        }
    }

    /// The error as the caller reports it.
    pub fn message(&self) -> (message: String)
        ensures
            message@ == self.message_text(),
    {
        match self {
            QueryError::NotFound => "PTY not found".to_owned(),
            QueryError::NoPid => "No PID".to_owned(),
            QueryError::QueryFailed { detail } => {
                let mut message = "lsof failed: ".to_owned();
                message.append(detail.as_str());
                message
            },
            QueryError::QueryRejected => "lsof returned error".to_owned(),
            QueryError::NoCwd => "CWD not found in lsof output".to_owned(),
        }
    }
}

/// A `QueryError` as a mathematical value.
pub enum QueryErrorView {
    NotFound,
    NoPid,
    QueryFailed { detail: Seq<char> },
    QueryRejected,
    NoCwd,
}

impl View for QueryError {
    type V = QueryErrorView;

    open spec fn view(&self) -> QueryErrorView {
        match self {
            QueryError::NotFound => QueryErrorView::NotFound,
            QueryError::NoPid => QueryErrorView::NoPid,
            QueryError::QueryFailed { detail } => QueryErrorView::QueryFailed { detail: detail@ },
            QueryError::QueryRejected => QueryErrorView::QueryRejected,
            QueryError::NoCwd => QueryErrorView::NoCwd,
        }
    }
}

/// What a query printed, and whether it reported success.
#[derive(Clone, Debug, PartialEq, Eq)]
pub struct ProcessOutput {
    pub success: bool,
    pub stdout: String,
}

/// A `ProcessOutput` as a mathematical value.
pub struct ProcessOutputView {
    pub success: bool,
    pub stdout: Seq<char>,
}

impl View for ProcessOutput {
    type V = ProcessOutputView;

    open spec fn view(&self) -> ProcessOutputView {
        ProcessOutputView { success: self.success, stdout: self.stdout@ }
    }
}

/// The arguments of the query for the children of the process `pid`.
pub open spec fn children_query(pid: u32) -> Seq<Seq<char>> {
    seq!["-P"@, decimal(pid as nat)]
}

/// The arguments of the query for the working directory of the process
/// `pid`, one field to a line, the directory behind the letter `n`.
pub open spec fn cwd_query(pid: u32) -> Seq<Seq<char>> {
    seq!["-a"@, "-d"@, "cwd"@, "-p"@, decimal(pid as nat), "-Fn"@]
}

/// The last of `rows` that, without the white space around it, is a
/// process identifier.
pub open spec fn last_pid(rows: Seq<Seq<char>>) -> Option<u32>
    decreases rows.len(),
{
    if rows.len() == 0 {
        None
    } else if parsed_u32(trimmed(rows.last())) is Some {
        parsed_u32(trimmed(rows.last()))
    } else {
        last_pid(rows.drop_last())
    }
}

/// What follows the letter `n` on the first of `rows` that starts with it.
pub open spec fn first_named(rows: Seq<Seq<char>>) -> Option<Seq<char>>
    decreases rows.len(),
{
    if rows.len() == 0 {
        None
    } else if rows[0].len() > 0 && rows[0][0] == 'n' {
        Some(rows[0].skip(1))
    } else {
        first_named(rows.drop_first())
    }
}

/// The foreground process of a shell, told from the listing of its
/// children: the child listed last, which is the one spawned last. There is
/// none where the listing could not be had, reported failure, or names no
/// process.
pub open spec fn foreground_pid(children: Option<ProcessOutputView>) -> Option<u32> {
    match children {
        Some(output) => if output.success {
            last_pid(lines(output.stdout))
        } else {
            None
        },
        None => None,
    }
}

/// The process whose working directory is asked for: the foreground
/// process, or the shell itself where no foreground process was found.
pub open spec fn cwd_target(shell_pid: u32, children: Option<ProcessOutputView>) -> u32 {
    match foreground_pid(children) {
        Some(pid) => pid,
        None => shell_pid,
    }
}

/// The working directory that the second query tells: the query has to
/// have run and to have reported success, and its output has to hold a
/// line that starts with `n`.
pub open spec fn cwd_answer(outcome: Result<ProcessOutputView, Seq<char>>) -> Result<
    Seq<char>,
    QueryErrorView,
> {
    match outcome {
        Err(detail) => Err(QueryErrorView::QueryFailed { detail }),
        Ok(output) => if !output.success {
            Err(QueryErrorView::QueryRejected)
        } else {
            match first_named(lines(output.stdout)) {
                Some(path) => Ok(path),
                None => Err(QueryErrorView::NoCwd),
            }
        },
    }
}

/// The view of the outcome of a query.
pub open spec fn outcome_of(outcome: Result<ProcessOutput, String>) -> Result<
    ProcessOutputView,
    Seq<char>,
> {
    match outcome {
        Ok(output) => Ok(output@),
        Err(detail) => Err(detail@),
    }
}

/// The view of an answer.
pub open spec fn answer_of(answer: Result<String, QueryError>) -> Result<Seq<char>, QueryErrorView> {
    match answer {
        Ok(path) => Ok(path@),
        Err(error) => Err(error@),
    }
}

/// The arguments of the query for the children of the process `pid`.
pub fn children_arguments(pid: u32) -> (arguments: Vec<String>)
    ensures
        texts_of(arguments@) == children_query(pid),
{
    let mut arguments: Vec<String> = Vec::new();
    arguments.push("-P".to_owned());
    arguments.push(decimal_string(pid));
    assert(texts_of(arguments@) =~= children_query(pid));
    arguments
}

/// The arguments of the query for the working directory of the process
/// `pid`.
pub fn cwd_arguments(pid: u32) -> (arguments: Vec<String>)
    ensures
        texts_of(arguments@) == cwd_query(pid),
{
    let mut arguments: Vec<String> = Vec::new();
    arguments.push("-a".to_owned());
    arguments.push("-d".to_owned());
    arguments.push("cwd".to_owned());
    arguments.push("-p".to_owned());
    arguments.push(decimal_string(pid));
    arguments.push("-Fn".to_owned());
    assert(texts_of(arguments@) =~= cwd_query(pid));
    arguments
}

/// The foreground process of a shell, told from the listing of its
/// children.
pub fn get_foreground_pid(children: Option<&ProcessOutput>) -> (found: Option<u32>)
    ensures
        found == foreground_pid(
            match children {
                Some(output) => Some(output@),
                None => None,
            },
        ),
{
    let output = match children {
        Some(output) => output,
        None => {
            return None;
        },
    };
    if !output.success {
        return None;
    }
    let text = to_chars(output.stdout.as_str());
    let rows = split_lines(&text);
    let ghost all = rows_of(rows);
    let mut found: Option<u32> = None;
    let mut i: usize = 0;
    while i < rows.len()
        invariant
            i <= rows.len(),
            all == rows_of(rows),
            found == last_pid(all.take(i as int)),
        decreases rows.len() - i,
    {
        let row = trim(&rows[i]);
        let parsed = parse_u32(&row);
        proof {
            assert(all.take(i as int + 1).drop_last() =~= all.take(i as int));
            assert(all.take(i as int + 1).last() == rows[i as int]@);
        }
        if parsed.is_some() {
            found = parsed;
        }
        i = i + 1;
    }
    assert(all.take(i as int) =~= all);
    found
}

/// The process whose working directory is asked for.
pub fn query_target(shell_pid: u32, children: Option<&ProcessOutput>) -> (target: u32)
    ensures
        target == cwd_target(
            shell_pid,
            match children {
                Some(output) => Some(output@),
                None => None,
            },
        ),
{
    match get_foreground_pid(children) {
        Some(pid) => pid,
        None => shell_pid,
    }
}

/// Reads the answer to the query for a working directory.
pub fn cwd_from_query(outcome: Result<ProcessOutput, String>) -> (answer: Result<String, QueryError>)
    ensures
        answer_of(answer) == cwd_answer(outcome_of(outcome)),
{
    let output = match outcome {
        Ok(output) => output,
        Err(detail) => {
            return Err(QueryError::QueryFailed { detail });
        },
    };
    if !output.success {
        return Err(QueryError::QueryRejected);
    }
    let text = to_chars(output.stdout.as_str());
    let rows = split_lines(&text);
    let ghost all = rows_of(rows);
    let mut i: usize = 0;
    assert(all.skip(0) =~= all);
    while i < rows.len()
        invariant
            i <= rows.len(),
            all == rows_of(rows),
            all == lines(output.stdout@),
            output.success,
            outcome_of(outcome) == Ok::<ProcessOutputView, Seq<char>>(output@),
            first_named(all) == first_named(all.skip(i as int)),
        decreases rows.len() - i,
    {
        let row = &rows[i];
        proof {
            assert(all.skip(i as int)[0] == row@);
            assert(all.skip(i as int).drop_first() =~= all.skip(i as int + 1));
        }
        if row.len() > 0 && row[0] == 'n' {
            let mut path: Vec<char> = Vec::new();
            let mut k: usize = 1;
            while k < row.len()
                invariant
                    1 <= k <= row.len(),
                    path@ == row@.subrange(1, k as int),
                decreases row.len() - k,
            {
                path.push(row[k]);
                assert(row@.subrange(1, k as int + 1) =~= row@.subrange(1, k as int).push(
                    row@[k as int],
                ));
                k = k + 1;
            }
            assert(path@ =~= row@.skip(1));
            return Ok(string_from_chars(&path));
        }
        i = i + 1;
    }
    Err(QueryError::NoCwd)
}

} // verus!
