//! The time-entry store: a per-day append-only log and a single-slot
//! current-task file.
//!
//! The tracker works on the *contents* of the two files as plain strings;
//! the application shell reads them in before a command and writes them
//! back after it, so every decision the store makes is verified here.
//! The one open-interval invariant: an entry whose end is the sentinel
//! `-1` is only ever written to the current-task slot, and closing a task
//! migrates its record into the permanent log before the slot is cleared.
//!
//! The two files are shared, unsynchronised resources across process
//! invocations: there is no file locking and no atomic-rename commit, by
//! design, so two invocations racing to start or stop at once can
//! interleave their writes.  That is an accepted limitation of a
//! single-user local tool, not something the store guards against.

use vstd::prelude::*;
use vstd::string::*;
use crate::cli::StartSubcommandA;
use crate::cli::start_times;
use crate::cli::start_times_ok;
use crate::error::Error;
use crate::grammar::EntrySpec;
use crate::grammar::TimeEntry;
use crate::grammar::encode_line_from_parts;
use crate::grammar::encode_line_spec;
use crate::grammar::entry_of;
use crate::grammar::fields_no_nl;
use crate::grammar::first_line;
use crate::grammar::first_line_of;
use crate::grammar::lemma_encode_no_nl;
use crate::grammar::lemma_encode_round_trip;
use crate::grammar::lemma_first_line_append;
use crate::grammar::lemma_first_line_no_nl;
use crate::grammar::lemma_parse_line_no_nl;
use crate::grammar::lemma_parse_log_append;
use crate::grammar::nl_terminated;
use crate::grammar::no_nl;
use crate::grammar::parse_line;
use crate::grammar::parse_line_spec;
use crate::grammar::parse_log_spec;
use crate::grammar::split_lines;
use crate::grammar::split_text_lines;
use crate::text::chars_of;
use crate::text::lex_gt;
use crate::text::str_lt;
use crate::text::string_from_chars;
use crate::timefmt::Date;
use crate::timefmt::format_instant;
use crate::timefmt::format_result;
use crate::timefmt::iso_date_seq;
use crate::timefmt::iso_date_string;
use crate::timefmt::local_now_hhmm;
use crate::timefmt::valid_hhmm;

verus! {

/// The time-tracking store for one reference day.
pub struct Tracker {
    /// The path of the day's log file.
    pub file: String,
    /// The reference date the store works on.
    pub date: Date,
    /// The configured offset from UTC, in whole minutes.
    pub utc_offset_minutes: i64,
    /// The contents of the day's log file.
    pub log: String,
    /// The contents of the current-task file.
    pub current: String,
}

/// The bounds under which the store's date arithmetic is defined.
pub open spec fn tracker_config_wf(t: Tracker) -> bool {
    t.date.wf() && -1000000000000 <= t.utc_offset_minutes <= 1000000000000
}

/// The parts of the tracker that no store operation changes.
pub open spec fn tracker_meta_same(pre: Tracker, post: Tracker) -> bool {
    post.file == pre.file && post.date == pre.date && post.utc_offset_minutes
        == pre.utc_offset_minutes
}

/// What creating an entry does: a closed interval whose end lies before
/// its start is rejected; an open entry (sentinel end) is appended to the
/// current-task file; a closed entry is appended to the permanent log.
pub open spec fn create_transition(
    pre: Tracker,
    post: Tracker,
    r: Result<(), Error>,
    e: EntrySpec,
) -> bool {
    if e.end != "-1"@ && lex_gt(e.start, e.end) {
        &&& r matches Err(err) && err is ValidationError
        &&& post == pre
    } else if e.end == "-1"@ {
        &&& r is Ok
        &&& tracker_meta_same(pre, post)
        &&& post.log == pre.log
        &&& post.current@ == pre.current@ + encode_line_spec(e) + seq!['\n']
    } else {
        &&& r is Ok
        &&& tracker_meta_same(pre, post)
        &&& post.current == pre.current
        &&& post.log@ == pre.log@ + encode_line_spec(e) + seq!['\n']
    }
}

/// The entry `f` closed with the given end time.
pub open spec fn with_end(f: EntrySpec, end: Seq<char>) -> EntrySpec {
    EntrySpec {
        project_code: f.project_code,
        task_id: f.task_id,
        title: f.title,
        start: f.start,
        end,
    }
}

/// What closing at a concrete end time does: when the current-task file's
/// first line is not a well-formed record the close is a no-op; when the
/// recorded start lies after the end time the close is rejected and
/// nothing changes; otherwise the closed record is appended to the log
/// and the current-task file is emptied.
pub open spec fn stop_at_transition(
    pre: Tracker,
    post: Tracker,
    r: Result<(), Error>,
    end_time: Seq<char>,
) -> bool {
    match parse_line_spec(first_line_of(pre.current@)) {
        None => r is Ok && post == pre,
        Some(f) => {
            if lex_gt(f.start, end_time) {
                &&& r matches Err(err) && err is ValidationError
                &&& post == pre
            } else {
                &&& r is Ok
                &&& tracker_meta_same(pre, post)
                &&& post.log@ == pre.log@ + encode_line_spec(with_end(f, end_time)) + seq!['\n']
                &&& post.current@ == Seq::<char>::empty()
            }
        },
    }
}

impl Tracker {
    /// A store over the given file contents, for a reference date and a
    /// UTC offset in minutes.
    pub fn with_contents(
        file: String,
        date: Date,
        utc_offset_minutes: i64,
        log: String,
        current: String,
    ) -> (r: Tracker)
        ensures
            r.file == file,
            r.date == date,
            r.utc_offset_minutes == utc_offset_minutes,
            r.log == log,
            r.current == current,
    {
        Tracker { file, date, utc_offset_minutes, log, current }
    }

    /// Creates a new entry: in the permanent log when its end is concrete,
    /// in the current-task file when its end is the open sentinel.
    ///
    /// A concrete end lying before the start is rejected with a
    /// validation error and nothing is written.
    pub fn create_entry(
        &mut self,
        project_code: &String,
        task: &String,
        end: String,
        start: String,
        title: String,
    ) -> (r: Result<(), Error>)
        ensures
            create_transition(
                *old(self),
                *final(self),
                r,
                entry_of(project_code@, task@, end@, start@, title@),
            ),
    {
        let minus_one = String::from_str("-1");
        if str_lt(end.as_str(), start.as_str()) && !(end == minus_one) {
            return Err(
                Error::ValidationError(
                    String::from_str("End time must be later than start time."),
                ),
            );
        }
        let line = encode_line_from_parts(
            project_code.as_str(),
            task.as_str(),
            end.as_str(),
            start.as_str(),
            title.as_str(),
        );
        proof {
            reveal_strlit("\n");
            assert(("\n")@ =~= seq!['\n']);
        }
        let ghost e = entry_of(project_code@, task@, end@, start@, title@);
        if end == minus_one {
            let mut c = self.current.clone();
            c.append(line.as_str());
            c.append("\n");
            self.current = c;
            proof {
                assert(self.current@ =~= old(self).current@ + encode_line_spec(e) + seq!['\n']);
            }
            Ok(())
        } else {
            let mut l = self.log.clone();
            l.append(line.as_str());
            l.append("\n");
            self.log = l;
            proof {
                assert(self.log@ =~= old(self).log@ + encode_line_spec(e) + seq!['\n']);
            }
            Ok(())
        }
    }

    /// Closes the current task at a concrete end time, migrating its
    /// record into the permanent log before the current-task file is
    /// emptied.  A current-task file whose first line does not parse as a
    /// record means no task is open, and the close succeeds untouched.
    pub fn stop_current_at(&mut self, end_time: String) -> (r: Result<(), Error>)
        requires
            end_time@ != "-1"@,
        ensures
            stop_at_transition(*old(self), *final(self), r, end_time@),
    {
        let cur_chars = chars_of(self.current.as_str());
        let line = first_line(&cur_chars);
        match parse_line(&line) {
            None => Ok(()),
            Some(entry) => {
                let ghost f = parse_line_spec(first_line_of(old(self).current@))->Some_0;
                proof {
                    assert(entry@ == f);
                }
                let res = self.create_entry(
                    &entry.project_code,
                    &entry.task_id,
                    end_time,
                    entry.start.clone(),
                    entry.title.clone(),
                );
                match res {
                    Ok(_) => {
                        self.current = String::new();
                        proof {
                            assert(self.current@ =~= Seq::<char>::empty());
                        }
                        Ok(())
                    },
                    Err(e) => Err(e),
                }
            },
        }
    }

    /// Closes the current task.  The sentinel `-1` means "now": the end
    /// time is then read from the machine's clock as a 4-digit string.
    pub fn stop_current(&mut self, at: String) -> (r: Result<(), Error>)
        ensures
            at@ != "-1"@ ==> stop_at_transition(*old(self), *final(self), r, at@),
            at@ == "-1"@ ==> exists|now: Seq<char>|
                valid_hhmm(now) && now != "-1"@ && #[trigger] stop_at_transition(
                    *old(self),
                    *final(self),
                    r,
                    now,
                ),
    {
        let minus_one = String::from_str("-1");
        if at == minus_one {
            let now = local_now_hhmm();
            let ghost nv = now@;
            proof {
                reveal_strlit("-1");
                assert(nv.len() == 4);
                assert(("-1")@.len() == 2);
                assert(nv != "-1"@);
            }
            let r = self.stop_current_at(now);
            proof {
                assert(valid_hhmm(nv) && nv != "-1"@ && stop_at_transition(
                    *old(self),
                    *final(self),
                    r,
                    nv,
                ));
            }
            r
        } else {
            self.stop_current_at(at)
        }
    }

    /// Begins a task: writes an open entry (sentinel end) for it to the
    /// current-task file.  Always succeeds; the ordering check does not
    /// apply to an open interval.
    pub fn open(
        &mut self,
        project_code: &String,
        task_id: &String,
        title: String,
        start_time: String,
    ) -> (r: Result<(), Error>)
        ensures
            r is Ok,
            create_transition(
                *old(self),
                *final(self),
                r,
                entry_of(project_code@, task_id@, "-1"@, start_time@, title@),
            ),
    {
        let minus_one = String::from_str("-1");
        self.create_entry(project_code, task_id, minus_one, start_time, title)
    }

    /// Closes the current task; the collaborator-facing name of
    /// `stop_current`.
    pub fn close(&mut self, at: String) -> (r: Result<(), Error>)
        ensures
            at@ != "-1"@ ==> stop_at_transition(*old(self), *final(self), r, at@),
            at@ == "-1"@ ==> exists|now: Seq<char>|
                valid_hhmm(now) && now != "-1"@ && #[trigger] stop_at_transition(
                    *old(self),
                    *final(self),
                    r,
                    now,
                ),
    {
        self.stop_current(at)
    }

    /// Begins a task the way the start command does: first closes any
    /// task still open, at the clock's current time, then writes the new
    /// open entry.  A failure of the close is surfaced and the new entry
    /// is not written.
    pub fn start_task(
        &mut self,
        project_code: &String,
        task_id: &String,
        title: String,
        till: Option<StartSubcommandA>,
    ) -> (r: Result<(), Error>)
        ensures
            exists|now: Seq<char>, mid: Tracker, r1: Result<(), Error>|
                {
                    &&& valid_hhmm(now)
                    &&& #[trigger] stop_at_transition(*old(self), mid, r1, now)
                    &&& match r1 {
                        Err(e1) => r matches Err(e2) && e2 == e1 && *final(self) == mid,
                        Ok(_) => exists|endv: Seq<char>, startv: Seq<char>|
                            start_times_ok(till, endv, startv) && #[trigger] create_transition(
                                mid,
                                *final(self),
                                r,
                                entry_of(project_code@, task_id@, endv, startv, title@),
                            ),
                    }
                },
    {
        let minus_one = String::from_str("-1");
        let now = local_now_hhmm();
        let ghost nv = now@;
        proof {
            reveal_strlit("-1");
            assert(nv != "-1"@);
        }
        let r1 = self.stop_current_at(now);
        let ghost mid = *self;
        if let Err(e) = r1 {
            return Err(e);
        }
        let (end, start) = start_times(till);
        let ghost endv = end@;
        let ghost startv = start@;
        let r2 = self.create_entry(project_code, task_id, end, start, title);
        proof {
            assert(stop_at_transition(*old(self), mid, Ok(()), nv));
        }
        r2
    }

    /// The lines of the day's log file.
    pub fn read(&self) -> (r: Vec<String>)
        ensures
            r.deep_view() == split_lines(self.log@),
    {
        let chars = chars_of(self.log.as_str());
        let lines = split_text_lines(&chars);
        let mut out: Vec<String> = Vec::new();
        let mut i: usize = 0;
        while i < lines.len()
            invariant
                i <= lines@.len(),
                lines.deep_view() == split_lines(self.log@),
                out@.len() == i,
                forall|j: int| 0 <= j < i ==> out.deep_view()[j] == lines.deep_view()[j],
            decreases lines@.len() - i,
        {
            out.push(string_from_chars(&lines[i]));
            proof {
                assert(lines.deep_view()[i as int] == lines@[i as int]@);
            }
            i += 1;
        }
        proof {
            assert(out.deep_view() =~~= split_lines(self.log@));
        }
        out
    }

    /// The day's entries, parsed from the permanent log.  A line that
    /// does not hold exactly five well-formed tokens is a parse error:
    /// corruption of the permanent log is surfaced, never skipped.
    pub fn read_day(&self) -> (r: Result<Vec<TimeEntry>, Error>)
        ensures
            match r {
                Ok(es) => parse_log_spec(self.log@) == Some(es.deep_view()),
                Err(e) => parse_log_spec(self.log@) is None && e is ParseError,
            },
    {
        let chars = chars_of(self.log.as_str());
        let lines = split_text_lines(&chars);
        let ghost ls = split_lines(self.log@);
        let mut out: Vec<TimeEntry> = Vec::new();
        let mut i: usize = 0;
        while i < lines.len()
            invariant
                i <= lines@.len(),
                lines.deep_view() == ls,
                ls == split_lines(self.log@),
                out@.len() == i,
                forall|j: int| 0 <= j < i ==> (#[trigger] parse_line_spec(ls[j])) is Some,
                forall|j: int|
                    0 <= j < i ==> out.deep_view()[j] == parse_line_spec(ls[j])->Some_0,
            decreases lines@.len() - i,
        {
            proof {
                assert(lines.deep_view()[i as int] == lines@[i as int]@);
            }
            match parse_line(&lines[i]) {
                Some(e) => {
                    let ghost dv0 = out.deep_view();
                    let ghost ev = e@;
                    out.push(e);
                    proof {
                        assert(out.deep_view() =~= dv0.push(ev));
                    }
                },
                None => {
                    proof {
                        assert(parse_line_spec(ls[i as int]) is None);
                    }
                    return Err(
                        Error::ParseError(
                            String::from_str("malformed line in the permanent log"),
                        ),
                    );
                },
            }
            i += 1;
        }
        proof {
            assert(out.deep_view() =~= Seq::new(
                ls.len(),
                |j: int| parse_line_spec(ls[j])->Some_0,
            ));
        }
        Ok(out)
    }

    /// The path of the current-task file: the sibling `current.jj` in the
    /// log file's directory.
    pub fn get_current_file_path(&self) -> (r: Result<String, Error>)
        ensures
            r matches Ok(p) && p@ == parent_prefix(self.file@) + "current.jj"@,
    {
        let mut chars = chars_of(self.file.as_str());
        let mut i: usize = chars.len();
        proof {
            assert(self.file@.subrange(0, i as int) =~= self.file@);
        }
        while i > 0 && !(chars[i - 1] == '/')
            invariant
                i <= chars@.len(),
                chars@ == self.file@,
                parent_prefix(self.file@) == parent_prefix(self.file@.subrange(0, i as int)),
            decreases i,
        {
            proof {
                let s = self.file@.subrange(0, i as int);
                assert(s[s.len() - 1] == self.file@[i - 1]);
                assert(s.drop_last() =~= self.file@.subrange(0, i - 1 as int));
            }
            i -= 1;
        }
        proof {
            let s = self.file@.subrange(0, i as int);
            if i > 0 {
                assert(s[s.len() - 1] == self.file@[i - 1]);
                assert(parent_prefix(s) == s);
            } else {
                assert(s =~= Seq::<char>::empty());
            }
        }
        chars.truncate(i);
        let mut p = string_from_chars(&chars);
        p.append("current.jj");
        Ok(p)
    }

    /// Converts a local clock string to an RFC 3339 instant, using the
    /// store's reference date and configured UTC offset.
    pub fn format_24_hrs(&self, time_str: &str) -> (r: Result<String, Error>)
        requires
            tracker_config_wf(*self),
        ensures
            format_result(r, self.date, time_str@, self.utc_offset_minutes as int),
    {
        format_instant(time_str, &self.date, self.utc_offset_minutes)
    }
}

/// The leading directory part of a path, up to and including the last
/// slash; empty when the path holds no slash.
pub open spec fn parent_prefix(s: Seq<char>) -> Seq<char>
    decreases s.len(),
{
    if s.len() == 0 {
        Seq::empty()
    } else if s[s.len() - 1] == '/' {
        s
    } else {
        parent_prefix(s.drop_last())
    }
}

/// The platform's per-user data directory, as text.
///
/// Relies on `dirs::data_dir`: the platform-defined per-user data
/// location, if the platform defines one.
#[verifier::external_body]
fn user_data_dir() -> (r: Option<String>) {
    dirs::data_dir().map(|p| p.to_string_lossy().to_string())
}

/// The path of the log file for a reference date: the product's directory
/// under the per-user data directory, with the date as the file name.
pub fn resolve_path(reference_date: &Date) -> (r: Result<String, Error>)
    requires
        reference_date.wf(),
    ensures
        r matches Ok(p) ==> exists|dir: Seq<char>|
            p@ == dir + "/jired/"@ + iso_date_seq(*reference_date) + ".jj"@,
{
    match user_data_dir() {
        None => Err(Error::IOError(String::from_str("Failed to get data dir"))),
        Some(dir) => {
            let ghost dv = dir@;
            let mut p = dir;
            p.append("/jired/");
            let iso = iso_date_string(reference_date);
            p.append(iso.as_str());
            p.append(".jj");
            proof {
                assert(p@ =~= dv + "/jired/"@ + iso_date_seq(*reference_date) + ".jj"@);
            }
            Ok(p)
        },
    }
}

// ---------------------------------------------------------------------------
// Laws of the store
// ---------------------------------------------------------------------------

/// Every entry of the sequence is closed: none carries the sentinel end.
pub open spec fn all_closed(es: Seq<EntrySpec>) -> bool {
    forall|i: int| 0 <= i < es.len() ==> (#[trigger] es[i]).end != "-1"@
}

/// Closing is idempotent: when the current-task file holds no well-formed
/// record — it is empty, absent, or garbled — the close succeeds and
/// changes nothing, the permanent log included.
pub proof fn lemma_stop_idempotent(
    pre: Tracker,
    post: Tracker,
    r: Result<(), Error>,
    end_time: Seq<char>,
)
    requires
        parse_line_spec(first_line_of(pre.current@)) is None,
        stop_at_transition(pre, post, r, end_time),
    ensures
        r is Ok,
        post == pre,
{
}

/// Starting a task never touches the permanent log: an open entry goes to
/// the current-task file alone, so the log's parse is unchanged and a log
/// of closed records stays all closed.
pub proof fn lemma_open_keeps_log(pre: Tracker, post: Tracker, r: Result<(), Error>, e: EntrySpec)
    requires
        create_transition(pre, post, r, e),
        e.end == "-1"@,
    ensures
        post.log == pre.log,
        parse_log_spec(post.log@) == parse_log_spec(pre.log@),
        parse_log_spec(pre.log@) matches Some(es) && all_closed(es) ==> (parse_log_spec(
            post.log@,
        ) matches Some(es2) && all_closed(es2)),
{
}

/// A successful close empties the current-task file and appends exactly
/// one record to the permanent log, closed with the given end time; a log
/// of closed records stays all closed.
pub proof fn lemma_close_appends_one_closed(
    pre: Tracker,
    post: Tracker,
    end_time: Seq<char>,
    f: EntrySpec,
)
    requires
        stop_at_transition(pre, post, Ok(()), end_time),
        parse_line_spec(first_line_of(pre.current@)) == Some(f),
        !lex_gt(f.start, end_time),
        no_nl(end_time),
        nl_terminated(pre.log@),
        parse_log_spec(pre.log@) is Some,
    ensures
        split_lines(post.current@).len() == 0,
        parse_log_spec(post.log@) == Some(
            parse_log_spec(pre.log@)->Some_0.push(with_end(f, end_time)),
        ),
        end_time != "-1"@ && all_closed(parse_log_spec(pre.log@)->Some_0) ==> all_closed(
            parse_log_spec(post.log@)->Some_0,
        ),
{
    lemma_first_line_no_nl(pre.current@);
    lemma_parse_line_no_nl(first_line_of(pre.current@));
    let e = with_end(f, end_time);
    assert(fields_no_nl(e));
    lemma_parse_log_append(pre.log@, e);
    assert(post.log@ =~= pre.log@ + encode_line_spec(e) + seq!['\n']);
    let es0 = parse_log_spec(pre.log@)->Some_0;
    let es1 = parse_log_spec(post.log@)->Some_0;
    assert(es1 == es0.push(e));
    if end_time != "-1"@ && all_closed(es0) {
        assert(forall|i: int| 0 <= i < es1.len() ==> (#[trigger] es1[i]).end != "-1"@) by {
            assert(forall|i: int| 0 <= i < es0.len() ==> es1[i] == es0[i]);
            assert(es1[es1.len() - 1] == e);
        }
    }
}

/// Creating an entry keeps the log newline-terminated, so the append law
/// stays applicable across any sequence of store operations.
pub proof fn lemma_create_keeps_log_terminated(
    pre: Tracker,
    post: Tracker,
    r: Result<(), Error>,
    e: EntrySpec,
)
    requires
        create_transition(pre, post, r, e),
        nl_terminated(pre.log@),
    ensures
        nl_terminated(post.log@),
{
    if !(e.end != "-1"@ && lex_gt(e.start, e.end)) && e.end != "-1"@ {
        assert(post.log@[post.log@.len() - 1] == '\n');
    }
}

/// Closing keeps the log newline-terminated.
pub proof fn lemma_stop_keeps_log_terminated(
    pre: Tracker,
    post: Tracker,
    r: Result<(), Error>,
    end_time: Seq<char>,
)
    requires
        stop_at_transition(pre, post, r, end_time),
        nl_terminated(pre.log@),
    ensures
        nl_terminated(post.log@),
{
    match parse_line_spec(first_line_of(pre.current@)) {
        None => {},
        Some(f) => {
            if !lex_gt(f.start, end_time) {
                assert(post.log@[post.log@.len() - 1] == '\n');
            }
        },
    }
}

/// Opening a task on an idle store and then closing it at a concrete end
/// time: an end before the recorded start fails validation and changes
/// nothing; otherwise the current-task file is emptied and the log gains
/// exactly the closed record, with every field round-tripped unchanged.
pub proof fn lemma_open_then_close(
    pre: Tracker,
    mid: Tracker,
    post: Tracker,
    r2: Result<(), Error>,
    pc: Seq<char>,
    task: Seq<char>,
    title: Seq<char>,
    start: Seq<char>,
    at: Seq<char>,
)
    requires
        pre.current@.len() == 0,
        create_transition(pre, mid, Ok(()), entry_of(pc, task, "-1"@, start, title)),
        stop_at_transition(mid, post, r2, at),
        fields_no_nl(entry_of(pc, task, "-1"@, start, title)),
    ensures
        lex_gt(start, at) ==> (r2 matches Err(e) && e is ValidationError && post == mid
            && post.log == pre.log),
        !lex_gt(start, at) ==> r2 is Ok && post.current@ == Seq::<char>::empty() && post.log@
            == pre.log@ + encode_line_spec(entry_of(pc, task, at, start, title)) + seq!['\n'],
{
    let e = entry_of(pc, task, "-1"@, start, title);
    lemma_encode_no_nl(e);
    assert(mid.current@ =~= encode_line_spec(e) + seq!['\n'] + Seq::<char>::empty());
    lemma_first_line_append(encode_line_spec(e), Seq::empty());
    assert(first_line_of(mid.current@) == encode_line_spec(e));
    lemma_encode_round_trip(e);
    assert(parse_line_spec(first_line_of(mid.current@)) == Some(e));
    assert(with_end(e, at) == entry_of(pc, task, at, start, title));
}

} // verus!
