//! The command model of the tool.
//!
//! These are the commands a user can give, as plain data.  The application
//! shell parses the real command line into this model and hands it to the
//! library; the derive-based argument parser itself lives in the shell.

use vstd::prelude::*;
use vstd::string::*;
use crate::timefmt::local_now_hhmm;
use crate::timefmt::valid_hhmm;

verus! {

/// The parsed command line.
#[derive(Debug, Clone)]
pub struct Args {
    pub command: Commands,
}

/// One invocation's command.
#[derive(Debug, Clone)]
pub enum Commands {
    /// Begin a task: a project short code, a fuzzy search pattern for the
    /// ticket, and optionally when the interval ends and starts.
    Start { project_code: String, pattern: String, till: Option<StartSubcommandA> },
    /// Stop the current task, optionally at a given clock time.
    Stop { at: Option<String> },
    /// Remove the stored credentials.
    Logout,
    /// Set the working date of the terminal session.
    SetDate { date: String },
    /// Add a project mapping.
    Add { key: String, pattern: String },
    /// Forward the day's entries to the clock backends.
    Log,
    /// Edit the day's log by hand.
    Edit,
}

/// An explicit end time for a new interval.
#[derive(Debug, Clone)]
pub enum StartSubcommandA {
    Till { till: String, from: Option<StartSubcommandB> },
}

/// An explicit start time for a new interval.
#[derive(Debug, Clone)]
pub enum StartSubcommandB {
    From { start: String },
}

impl Default for StartSubcommandB {
    /// The default start time is the clock's current time.
    fn default() -> (r: Self)
        ensures
            match r {
                StartSubcommandB::From { start } => valid_hhmm(start@),
            },
    {
        StartSubcommandB::From { start: local_now_hhmm() }
    }
}

impl Default for StartSubcommandA {
    /// The default end is the open-interval sentinel, with the start
    /// defaulted to the clock's current time.
    fn default() -> (r: Self)
        ensures
            match r {
                StartSubcommandA::Till { till, from } => till@ == "-1"@ && (from matches Some(
                    f,
                ) && match f {
                    StartSubcommandB::From { start } => valid_hhmm(start@),
                }),
            },
    {
        StartSubcommandA::Till {
            till: String::from_str("-1"),
            from: Some(StartSubcommandB::default()),
        }
    }
}

/// The start value that an optional `from` clause denotes.
pub open spec fn from_start_ok(from: Option<StartSubcommandB>, start: Seq<char>) -> bool {
    match from {
        Some(StartSubcommandB::From { start: s }) => start == s@,
        None => valid_hhmm(start),
    }
}

/// The end and start values that an optional `till` clause denotes: the
/// given end (the sentinel when absent) and the given start (the clock's
/// current time when absent).
pub open spec fn start_times_ok(
    till: Option<StartSubcommandA>,
    end: Seq<char>,
    start: Seq<char>,
) -> bool {
    match till {
        Some(StartSubcommandA::Till { till: t, from }) => end == t@ && from_start_ok(
            from,
            start,
        ),
        None => end == "-1"@ && valid_hhmm(start),
    }
}

/// The end and start times of a new interval, with the defaults filled in.
pub fn start_times(till: Option<StartSubcommandA>) -> (r: (String, String))
    ensures
        start_times_ok(till, r.0@, r.1@),
{
    match till {
        Some(StartSubcommandA::Till { till: t, from }) => {
            match from {
                Some(StartSubcommandB::From { start }) => (t, start),
                None => {
                    let d = StartSubcommandB::default();
                    match d {
                        StartSubcommandB::From { start } => (t, start),
                    }
                },
            }
        },
        None => {
            let d = StartSubcommandA::default();
            match d {
                StartSubcommandA::Till { till: t, from } => {
                    match from {
                        Some(StartSubcommandB::From { start }) => (t, start),
                        None => {
                            let d2 = StartSubcommandB::default();
                            match d2 {
                                StartSubcommandB::From { start } => (t, start),
                            }
                        },
                    }
                },
            }
        },
    }
}

} // verus!
