//! The clock backends: what gets submitted where.
//!
//! A clock backend forwards the day's entries to an external
//! time-tracking service.  The HTTP calls live in the application shell;
//! the library builds the submission payloads, resolves project mappings,
//! and decides selections, all verified.

use vstd::prelude::*;
use vstd::string::*;
use crate::cli::Args;
use crate::error::Error;
use crate::grammar::EntrySpec;
use crate::grammar::TimeEntry;
use crate::secrets::Secrets;
use crate::text::chars_of;
use crate::text::string_from_chars;
use crate::timefmt::Date;
use crate::tracker::Tracker;
use crate::tracker::tracker_config_wf;
use crate::grammar::parse_log_spec;
use crate::timefmt::days_before_year;
use crate::timefmt::format_instant;
use crate::timefmt::format_result;
use crate::timefmt::instant_seconds;
use crate::timefmt::valid_hhmm;

verus! {

/// A clock backend: a destination for the day's time entries.
pub trait Clock {
    /// A backend with its defaults.
    fn new() -> Self where Self: Sized;

    /// Ensures the backend is authenticated, then handles the command.
    fn init(&mut self, args: &Args) -> Result<(), Error>;

    /// Dispatches on the command.
    fn process_arguments(&mut self, args: &Args) -> Result<(), Error>;

    /// Forwards the day's entries to the service.
    fn log(&self) -> Result<(), Error>;

    /// Removes the backend's stored credentials.
    fn logout(&self) -> Result<(), Error>;
}

/// The ticket system's own worklog, as a clock backend; not wired up yet.
pub struct JiraClock {}

impl Clock for JiraClock {
    fn new() -> Self {
        JiraClock {  }
    }

    fn init(&mut self, _args: &Args) -> Result<(), Error> {
        Ok(())
    }

    fn process_arguments(&mut self, _args: &Args) -> Result<(), Error> {
        Ok(())
    }

    fn log(&self) -> Result<(), Error> {
        Ok(())
    }

    fn logout(&self) -> Result<(), Error> {
        Ok(())
    }
}

// ---------------------------------------------------------------------------
// Project mappings
// ---------------------------------------------------------------------------

/// The model of one project mapping.
pub ghost struct ProjectSpec {
    pub code: Seq<char>,
    pub key: Seq<char>,
    pub id: Seq<char>,
}

/// One project mapping of the configuration: a key the log entries use,
/// the project's display code, and its identifier at the service.
pub struct Project {
    pub code: String,
    pub key: String,
    pub id: String,
}

impl View for Project {
    type V = ProjectSpec;

    open spec fn view(&self) -> ProjectSpec {
        ProjectSpec { code: self.code@, key: self.key@, id: self.id@ }
    }
}

impl DeepView for Project {
    type V = ProjectSpec;

    open spec fn deep_view(&self) -> ProjectSpec {
        self.view()
    }
}

/// The first mapping whose key equals the given key.
pub open spec fn find_project_spec(ps: Seq<ProjectSpec>, key: Seq<char>) -> Option<ProjectSpec>
    decreases ps.len(),
{
    if ps.len() == 0 {
        None
    } else if ps[0].key == key {
        Some(ps[0])
    } else {
        find_project_spec(ps.drop_first(), key)
    }
}

/// Finds the first project mapping with the given key.
pub fn find_project_index(projects: &Vec<Project>, key: &String) -> (r: Option<usize>)
    ensures
        match r {
            Some(i) => i < projects@.len() && find_project_spec(projects.deep_view(), key@)
                == Some(projects.deep_view()[i as int]),
            None => find_project_spec(projects.deep_view(), key@) is None,
        },
{
    let ghost dv = projects.deep_view();
    let mut i: usize = 0;
    proof {
        assert(dv.skip(0) =~= dv);
    }
    while i < projects.len()
        invariant
            i <= projects@.len(),
            dv == projects.deep_view(),
            dv.len() == projects@.len(),
            find_project_spec(dv, key@) == find_project_spec(dv.skip(i as int), key@),
        decreases projects@.len() - i,
    {
        proof {
            assert(dv[i as int] == projects@[i as int]@);
            assert(dv.skip(i as int)[0] == dv[i as int]);
            assert(dv.skip(i as int).drop_first() =~= dv.skip(i + 1 as int));
        }
        if projects[i].key == *key {
            return Some(i);
        }
        i += 1;
    }
    proof {
        assert(dv.skip(projects@.len() as int) =~= Seq::<ProjectSpec>::empty());
    }
    None
}

// ---------------------------------------------------------------------------
// The submission payload
// ---------------------------------------------------------------------------

/// One time-entry payload as the service's API takes it.  The shell
/// serialises it to JSON on its own copy of the type.
#[derive(Debug)]
pub struct ClockifyTimeEntryPayload {
    pub workspace_id: String,
    pub billable: bool,
    pub project_id: String,
    pub start: String,
    pub end: String,
    pub description: String,
}

/// `s` without leading double quotes.
pub open spec fn trim_q_front(s: Seq<char>) -> Seq<char>
    decreases s.len(),
{
    if s.len() > 0 && s[0] == '"' {
        trim_q_front(s.drop_first())
    } else {
        s
    }
}

/// `s` without trailing double quotes.
pub open spec fn trim_q_back(s: Seq<char>) -> Seq<char>
    decreases s.len(),
{
    if s.len() > 0 && s[s.len() - 1] == '"' {
        trim_q_back(s.drop_last())
    } else {
        s
    }
}

/// `s` without surrounding double quotes, as a stored workspace
/// identifier may carry them from its JSON form.
pub open spec fn trim_quotes(s: Seq<char>) -> Seq<char> {
    trim_q_back(trim_q_front(s))
}

/// Strips surrounding double quotes from a string.
pub fn trim_quote_chars(s: &String) -> (r: String)
    ensures
        r@ == trim_quotes(s@),
{
    let chars = chars_of(s.as_str());
    let n = chars.len();
    let mut lo: usize = 0;
    proof {
        assert(s@.skip(0) =~= s@);
    }
    while lo < n && chars[lo] == '"'
        invariant
            lo <= n,
            n == s@.len(),
            chars@ == s@,
            trim_q_front(s@) == trim_q_front(s@.skip(lo as int)),
        decreases n - lo,
    {
        proof {
            let t = s@.skip(lo as int);
            assert(t[0] == s@[lo as int]);
            assert(t.drop_first() =~= s@.skip(lo + 1 as int));
        }
        lo += 1;
    }
    proof {
        let t = s@.skip(lo as int);
        if lo < n {
            assert(t[0] == s@[lo as int]);
        }
        assert(trim_q_front(t) == t);
        assert(trim_q_front(s@) == s@.skip(lo as int));
    }
    let mut hi: usize = n;
    proof {
        assert(s@.subrange(lo as int, hi as int) =~= s@.skip(lo as int));
    }
    while hi > lo && chars[hi - 1] == '"'
        invariant
            lo <= hi <= n,
            n == s@.len(),
            chars@ == s@,
            trim_q_front(s@) == s@.skip(lo as int),
            trim_quotes(s@) == trim_q_back(s@.subrange(lo as int, hi as int)),
        decreases hi,
    {
        proof {
            let t = s@.subrange(lo as int, hi as int);
            assert(t[t.len() - 1] == s@[hi - 1]);
            assert(t.drop_last() =~= s@.subrange(lo as int, hi - 1 as int));
        }
        hi -= 1;
    }
    proof {
        let t = s@.subrange(lo as int, hi as int);
        if hi > lo {
            assert(t[t.len() - 1] == s@[hi - 1]);
        }
        assert(trim_q_back(t) == t);
    }
    let mut out: Vec<char> = Vec::new();
    let mut i: usize = lo;
    while i < hi
        invariant
            lo <= i <= hi <= n,
            n == s@.len(),
            chars@ == s@,
            out@ == s@.subrange(lo as int, i as int),
        decreases hi - i,
    {
        out.push(chars[i]);
        proof {
            assert(out@ =~= s@.subrange(lo as int, i + 1 as int));
        }
        i += 1;
    }
    string_from_chars(&out)
}

/// The service URL that time entries of a workspace are posted to.
pub fn time_entries_url(workspace_id: &String) -> (r: String)
    ensures
        r@ == "https://api.clockify.me/api/v1/workspaces/"@ + trim_quotes(workspace_id@)
            + "/time-entries"@,
{
    let trimmed = trim_quote_chars(workspace_id);
    let mut out = String::from_str("https://api.clockify.me/api/v1/workspaces/");
    out.append(trimmed.as_str());
    out.append("/time-entries");
    out
}

/// A clock string converts to an in-range instant.
pub open spec fn format_ok(date: Date, time: Seq<char>, off: int) -> bool {
    valid_hhmm(time) && 0 <= instant_seconds(date, time, off) < 86400 * days_before_year(10000)
}

/// What building a payload for one entry returns.  The entry's end and
/// start convert to RFC 3339 instants (the end first, as its failure is
/// reported first); the project is looked up by the entry's project code
/// among the configured mappings; the description cites the task and
/// title; the workspace identifier is stripped of surrounding quotes.
pub open spec fn payload_result(
    r: Result<ClockifyTimeEntryPayload, Error>,
    e: EntrySpec,
    ps: Seq<ProjectSpec>,
    ws: Seq<char>,
    date: Date,
    off: int,
) -> bool {
    match r {
        Ok(p) => {
            &&& format_result(Ok(p.end), date, e.end, off)
            &&& format_result(Ok(p.start), date, e.start, off)
            &&& find_project_spec(ps, e.project_code) matches Some(pr) && p.project_id@ == pr.id
            &&& p.workspace_id@ == trim_quotes(ws)
            &&& p.billable == true
            &&& p.description@ == "["@ + e.task_id + "]: "@ + e.title
        },
        Err(err) => {
            if !format_ok(date, e.end, off) {
                format_result(Err(err), date, e.end, off)
            } else if !format_ok(date, e.start, off) {
                format_result(Err(err), date, e.start, off)
            } else {
                find_project_spec(ps, e.project_code) is None && err is ConfigError
            }
        },
    }
}

/// Builds the submission payload for one logged entry.
pub fn build_time_entry_payload(
    entry: &TimeEntry,
    projects: &Vec<Project>,
    workspace_id: &String,
    reference_date: &Date,
    offset_minutes: i64,
) -> (r: Result<ClockifyTimeEntryPayload, Error>)
    requires
        reference_date.wf(),
        -1000000000000 <= offset_minutes <= 1000000000000,
    ensures
        payload_result(
            r,
            entry@,
            projects.deep_view(),
            workspace_id@,
            *reference_date,
            offset_minutes as int,
        ),
{
    let end = match format_instant(entry.end.as_str(), reference_date, offset_minutes) {
        Ok(s) => s,
        Err(e) => {
            return Err(e);
        },
    };
    let start = match format_instant(entry.start.as_str(), reference_date, offset_minutes) {
        Ok(s) => s,
        Err(e) => {
            return Err(e);
        },
    };
    let mut description = String::from_str("[");
    description.append(entry.task_id.as_str());
    description.append("]: ");
    description.append(entry.title.as_str());
    let idx = match find_project_index(projects, &entry.project_code) {
        Some(i) => i,
        None => {
            let mut m = String::from_str("Project with key '");
            m.append(entry.project_code.as_str());
            m.append("' not found");
            return Err(Error::ConfigError(m));
        },
    };
    let workspace = trim_quote_chars(workspace_id);
    Ok(
        ClockifyTimeEntryPayload {
            workspace_id: workspace,
            billable: true,
            project_id: projects[idx].id.clone(),
            start,
            end,
            description,
        },
    )
}

/// Builds the submission payloads for every entry of the day's log, in
/// order: the log is parsed fail-fast, and the first entry that cannot be
/// converted or whose project is unmapped stops the run with its error.
/// What building the whole day's payloads returns: on success, one
/// payload per parsed entry, each as `payload_result` states; on failure,
/// either the log itself did not parse, or some entry's payload failed
/// with this error.
pub open spec fn log_payloads_result(
    r: Result<Vec<ClockifyTimeEntryPayload>, Error>,
    log: Seq<char>,
    ps_dv: Seq<ProjectSpec>,
    ws: Seq<char>,
    date: Date,
    off: int,
) -> bool {
    match r {
        Ok(ps) => match parse_log_spec(log) {
            Some(es) => ps@.len() == es.len() && forall|i: int|
                0 <= i < es.len() ==> payload_result(
                    Ok(#[trigger] ps@[i]),
                    es[i],
                    ps_dv,
                    ws,
                    date,
                    off,
                ),
            None => false,
        },
        Err(e) => match parse_log_spec(log) {
            None => e is ParseError,
            Some(es) => exists|i: int|
                0 <= i < es.len() && payload_result(Err(e), #[trigger] es[i], ps_dv, ws, date, off),
        },
    }
}

pub fn clockify_log_payloads(
    tracker: &Tracker,
    projects: &Vec<Project>,
    workspace_id: &String,
) -> (r: Result<Vec<ClockifyTimeEntryPayload>, Error>)
    requires
        tracker_config_wf(*tracker),
    ensures
        log_payloads_result(
            r,
            tracker.log@,
            projects.deep_view(),
            workspace_id@,
            tracker.date,
            tracker.utc_offset_minutes as int,
        ),
{
    let entries = match tracker.read_day() {
        Ok(es) => es,
        Err(e) => {
            return Err(e);
        },
    };
    let ghost es = entries.deep_view();
    let mut out: Vec<ClockifyTimeEntryPayload> = Vec::new();
    let mut i: usize = 0;
    while i < entries.len()
        invariant
            i <= entries@.len(),
            es == entries.deep_view(),
            es.len() == entries@.len(),
            parse_log_spec(tracker.log@) == Some(es),
            tracker_config_wf(*tracker),
            out@.len() == i,
            forall|j: int|
                0 <= j < i ==> payload_result(
                    Ok(#[trigger] out@[j]),
                    es[j],
                    projects.deep_view(),
                    workspace_id@,
                    tracker.date,
                    tracker.utc_offset_minutes as int,
                ),
        decreases entries@.len() - i,
    {
        proof {
            assert(es[i as int] == entries@[i as int]@);
        }
        match build_time_entry_payload(
            &entries[i],
            projects,
            workspace_id,
            &tracker.date,
            tracker.utc_offset_minutes,
        ) {
            Ok(p) => {
                out.push(p);
            },
            Err(e) => {
                proof {
                    assert((i as int) < es.len() && payload_result(
                        Err(e),
                        es[i as int],
                        projects.deep_view(),
                        workspace_id@,
                        tracker.date,
                        tracker.utc_offset_minutes as int,
                    ));
                    assert(parse_log_spec(tracker.log@)->Some_0 == es);
                    assert(payload_result(
                        Err(e),
                        parse_log_spec(tracker.log@)->Some_0[i as int],
                        projects.deep_view(),
                        workspace_id@,
                        tracker.date,
                        tracker.utc_offset_minutes as int,
                    ));
                    assert(log_payloads_result(
                        Err(e),
                        tracker.log@,
                        projects.deep_view(),
                        workspace_id@,
                        tracker.date,
                        tracker.utc_offset_minutes as int,
                    ));
                }
                return Err(e);
            },
        }
        i += 1;
    }
    proof {
        assert(log_payloads_result(
            Ok(out),
            tracker.log@,
            projects.deep_view(),
            workspace_id@,
            tracker.date,
            tracker.utc_offset_minutes as int,
        ));
    }
    Ok(out)
}

// ---------------------------------------------------------------------------
// Project selection
// ---------------------------------------------------------------------------

/// The index of the project a user picked from the service's answer: a
/// single candidate is taken as is; otherwise the user's 1-based choice
/// must name one of the candidates.
pub fn select_project_index(count: usize, choice: usize) -> (r: Result<usize, Error>)
    ensures
        match r {
            Ok(i) => (count == 1 && i == 0) || (count != 1 && 1 <= choice && i == choice - 1
                && i < count),
            Err(e) => count != 1 && (choice < 1 || choice > count) && e is ConfigError,
        },
{
    if count == 1 {
        Ok(0)
    } else if 1 <= choice && choice <= count {
        Ok(choice - 1)
    } else {
        Err(
            Error::ConfigError(
                String::from_str(
                    "Project response is empty, check the project code again and try",
                ),
            ),
        )
    }
}

// ---------------------------------------------------------------------------
// Credentials of the backend
// ---------------------------------------------------------------------------

/// The secrets the backend stores, as a closed set of named keys.
#[derive(Clone, Copy, Debug, PartialEq, Eq, Structural)]
pub enum ClockifySecrets {
    ApiToken,
    WorkspaceId,
}

impl ClockifySecrets {
    /// The key name under which this secret is stored.
    pub fn key_name(&self) -> (r: String)
        ensures
            r@ == match self {
                ClockifySecrets::ApiToken => "ApiToken"@,
                ClockifySecrets::WorkspaceId => "WorkspaceId"@,
            },
    {
        match self {
            ClockifySecrets::ApiToken => String::from_str("ApiToken"),
            ClockifySecrets::WorkspaceId => String::from_str("WorkspaceId"),
        }
    }

    /// Every secret of the backend, in the order logout clears them.
    pub fn all() -> (r: Vec<ClockifySecrets>)
        ensures
            r@ == seq![ClockifySecrets::ApiToken, ClockifySecrets::WorkspaceId],
    {
        let mut v: Vec<ClockifySecrets> = Vec::new();
        v.push(ClockifySecrets::ApiToken);
        v.push(ClockifySecrets::WorkspaceId);
        proof {
            assert(v@ =~= seq![ClockifySecrets::ApiToken, ClockifySecrets::WorkspaceId]);
        }
        v
    }
}

/// Removes every stored credential of the backend, stopping at the first
/// failure as the logout command does.
pub fn logout_clockify() -> Result<(), Error> {
    let keys = ClockifySecrets::all();
    let mut i: usize = 0;
    while i < keys.len()
        decreases keys@.len() - i,
    {
        let name = keys[i].key_name();
        match Secrets::delete(name.as_str()) {
            Ok(_) => {},
            Err(e) => {
                return Err(e);
            },
        }
        i += 1;
    }
    Ok(())
}

} // verus!
