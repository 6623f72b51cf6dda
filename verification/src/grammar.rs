//! The one-line record grammar of the log files.
//!
//! Each record is one line of five whitespace-separated tokens:
//!
//! ```text
//! <project_code> <task_id> <end> <start> "<title>"
//! ```
//!
//! A token is either a plain run of unproblematic characters or a
//! double-quoted segment in which `"` and `\` are escaped with a backslash,
//! so a title with spaces and quote characters round-trips exactly.  The
//! title is always written quoted; the other four fields are quoted only
//! when they need it.

use vstd::prelude::*;
use crate::text::chars_of;
use crate::text::string_from_chars;

verus! {

// ---------------------------------------------------------------------------
// Character classes
// ---------------------------------------------------------------------------

/// Token-separating whitespace.
pub open spec fn is_blank(c: char) -> bool {
    c == ' ' || c == '\t' || c == '\r' || c == '\n'
}

/// Characters that force a field to be written in quoted form.
pub open spec fn needs_quoting_char(c: char) -> bool {
    is_blank(c) || c == '"' || c == '\\'
}

/// A non-empty field that can be written without quotes.
pub open spec fn plain_token(s: Seq<char>) -> bool {
    s.len() > 0 && forall|i: int| 0 <= i < s.len() ==> !needs_quoting_char(s[i])
}

/// Decides `is_blank`.
pub fn blank_char(c: char) -> (b: bool)
    ensures
        b == is_blank(c),
{
    c == ' ' || c == '\t' || c == '\r' || c == '\n'
}

/// Decides `needs_quoting_char`.
pub fn quoting_char(c: char) -> (b: bool)
    ensures
        b == needs_quoting_char(c),
{
    blank_char(c) || c == '"' || c == '\\'
}

// ---------------------------------------------------------------------------
// Tokenizing
// ---------------------------------------------------------------------------

/// Tokens of `s`, while between tokens.  `None` means the line is malformed
/// (an unterminated quote or a stray escape).
pub open spec fn toks_blank(s: Seq<char>) -> Option<Seq<Seq<char>>>
    decreases s.len(), 1int,
{
    if s.len() == 0 {
        Some(Seq::empty())
    } else if is_blank(s[0]) {
        toks_blank(s.drop_first())
    } else {
        toks_word(s, Seq::empty())
    }
}

/// Tokens of `s` while inside an unquoted part of a token whose collected
/// characters so far are `cur`.
pub open spec fn toks_word(s: Seq<char>, cur: Seq<char>) -> Option<Seq<Seq<char>>>
    decreases s.len(), 0int,
{
    if s.len() == 0 {
        Some(seq![cur])
    } else if is_blank(s[0]) {
        match toks_blank(s.drop_first()) {
            Some(ts) => Some(seq![cur] + ts),
            None => None,
        }
    } else if s[0] == '"' {
        toks_quoted(s.drop_first(), cur)
    } else {
        toks_word(s.drop_first(), cur.push(s[0]))
    }
}

/// Tokens of `s` while inside a double-quoted part of a token whose
/// collected characters so far are `cur`.
pub open spec fn toks_quoted(s: Seq<char>, cur: Seq<char>) -> Option<Seq<Seq<char>>>
    decreases s.len(), 1int,
{
    if s.len() == 0 {
        None
    } else if s[0] == '"' {
        toks_word(s.drop_first(), cur)
    } else if s[0] == '\\' {
        if s.len() >= 2 && (s[1] == '"' || s[1] == '\\') {
            toks_quoted(s.skip(2), cur.push(s[1]))
        } else {
            None
        }
    } else {
        toks_quoted(s.drop_first(), cur.push(s[0]))
    }
}

/// The tokens of one line, if it is well-formed.
pub open spec fn tokens_of(s: Seq<char>) -> Option<Seq<Seq<char>>> {
    toks_blank(s)
}

// ---------------------------------------------------------------------------
// Quoting
// ---------------------------------------------------------------------------

/// The escaped form of one character inside quotes.
pub open spec fn esc_char(c: char) -> Seq<char> {
    if c == '"' || c == '\\' {
        seq!['\\', c]
    } else {
        seq![c]
    }
}

/// The escaped form of a field's characters.
pub open spec fn esc(s: Seq<char>) -> Seq<char>
    decreases s.len(),
{
    if s.len() == 0 {
        Seq::empty()
    } else {
        esc_char(s[0]) + esc(s.drop_first())
    }
}

/// A field written in quoted form.
pub open spec fn quoted(s: Seq<char>) -> Seq<char> {
    seq!['"'] + esc(s) + seq!['"']
}

/// A field as it is written: plain when possible, quoted otherwise.
pub open spec fn field_token(s: Seq<char>) -> Seq<char> {
    if plain_token(s) {
        s
    } else {
        quoted(s)
    }
}

// ---------------------------------------------------------------------------
// Entries
// ---------------------------------------------------------------------------

/// The mathematical model of one logged interval.
pub ghost struct EntrySpec {
    pub project_code: Seq<char>,
    pub task_id: Seq<char>,
    pub title: Seq<char>,
    pub start: Seq<char>,
    pub end: Seq<char>,
}

/// One logged interval: a project code, a task identifier, a title, and the
/// interval's start and end as 4-digit 24-hour clock strings.  The end may
/// hold the sentinel `-1`, meaning the interval is still open.
#[derive(Debug, PartialEq, Eq)]
pub struct TimeEntry {
    pub project_code: String,
    pub task_id: String,
    pub title: String,
    pub start: String,
    pub end: String,
}

impl View for TimeEntry {
    type V = EntrySpec;

    open spec fn view(&self) -> EntrySpec {
        EntrySpec {
            project_code: self.project_code@,
            task_id: self.task_id@,
            title: self.title@,
            start: self.start@,
            end: self.end@,
        }
    }
}

impl DeepView for TimeEntry {
    type V = EntrySpec;

    open spec fn deep_view(&self) -> EntrySpec {
        self.view()
    }
}

/// The model entry with the given fields.
pub open spec fn entry_of(
    project_code: Seq<char>,
    task_id: Seq<char>,
    end: Seq<char>,
    start: Seq<char>,
    title: Seq<char>,
) -> EntrySpec {
    EntrySpec { project_code, task_id, title, start, end }
}

/// The line encoding an entry (without the terminating newline).
pub open spec fn encode_line_spec(e: EntrySpec) -> Seq<char> {
    field_token(e.project_code) + seq![' '] + field_token(e.task_id) + seq![' ']
        + field_token(e.end) + seq![' '] + field_token(e.start) + seq![' '] + quoted(e.title)
}

/// The entry a line holds, if the line tokenizes into exactly five fields.
pub open spec fn parse_line_spec(line: Seq<char>) -> Option<EntrySpec> {
    match tokens_of(line) {
        Some(ts) => if ts.len() == 5 {
            Some(entry_of(ts[0], ts[1], ts[2], ts[3], ts[4]))
        } else {
            None
        },
        None => None,
    }
}

// ---------------------------------------------------------------------------
// Executable encoding
// ---------------------------------------------------------------------------

/// Whether every character of the vector may stand unquoted.
fn is_plain(chars: &Vec<char>) -> (b: bool)
    ensures
        b == plain_token(chars@),
{
    if chars.len() == 0 {
        return false;
    }
    let mut i: usize = 0;
    while i < chars.len()
        invariant
            i <= chars@.len(),
            chars@.len() > 0,
            forall|j: int| 0 <= j < i ==> !needs_quoting_char(chars@[j]),
        decreases chars@.len() - i,
    {
        if quoting_char(chars[i]) {
            return false;
        }
        i += 1;
    }
    true
}

/// Appends the escaped form of `chars` to `out`.
fn push_escaped(out: &mut Vec<char>, chars: &Vec<char>)
    ensures
        final(out)@ == old(out)@ + esc(chars@),
{
    let mut i: usize = 0;
    proof {
        assert(chars@.skip(0) =~= chars@);
    }
    while i < chars.len()
        invariant
            i <= chars@.len(),
            out@ + esc(chars@.skip(i as int)) == old(out)@ + esc(chars@),
        decreases chars@.len() - i,
    {
        let c = chars[i];
        let ghost rest = chars@.skip(i as int);
        proof {
            assert(rest.len() > 0);
            assert(rest[0] == chars@[i as int]);
            assert(rest.drop_first() =~= chars@.skip(i + 1 as int));
            assert(esc(rest) == esc_char(c) + esc(rest.drop_first()));
        }
        if c == '"' || c == '\\' {
            out.push('\\');
            out.push(c);
            proof {
                assert(out@ + esc(chars@.skip(i + 1 as int)) =~= old(out)@ + esc(chars@));
            }
        } else {
            out.push(c);
            proof {
                assert(esc_char(c) =~= seq![c]);
                assert(out@ + esc(chars@.skip(i + 1 as int)) =~= old(out)@ + esc(chars@));
            }
        }
        i += 1;
    }
    proof {
        assert(esc(chars@.skip(chars@.len() as int)) =~= Seq::<char>::empty());
        assert(final(out)@ =~= old(out)@ + esc(chars@));
    }
}

/// Appends a field in quoted form to `out`.
fn push_quoted(out: &mut Vec<char>, field: &str)
    ensures
        final(out)@ == old(out)@ + quoted(field@),
{
    let chars = chars_of(field);
    out.push('"');
    push_escaped(out, &chars);
    out.push('"');
    proof {
        assert(final(out)@ =~= old(out)@ + quoted(field@));
    }
}

/// Appends a field, plain when possible and quoted otherwise, to `out`.
fn push_field(out: &mut Vec<char>, field: &str)
    ensures
        final(out)@ == old(out)@ + field_token(field@),
{
    let mut chars = chars_of(field);
    if is_plain(&chars) {
        out.append(&mut chars);
    } else {
        out.push('"');
        push_escaped(out, &chars);
        out.push('"');
        proof {
            assert(final(out)@ =~= old(out)@ + quoted(field@));
        }
    }
}

/// The line encoding an entry with the given fields, without its newline.
pub fn encode_line_from_parts(
    project_code: &str,
    task_id: &str,
    end: &str,
    start: &str,
    title: &str,
) -> (r: String)
    ensures
        r@ == encode_line_spec(entry_of(project_code@, task_id@, end@, start@, title@)),
{
    let mut out: Vec<char> = Vec::new();
    push_field(&mut out, project_code);
    out.push(' ');
    push_field(&mut out, task_id);
    out.push(' ');
    push_field(&mut out, end);
    out.push(' ');
    push_field(&mut out, start);
    out.push(' ');
    push_quoted(&mut out, title);
    proof {
        assert(out@ =~= encode_line_spec(
            entry_of(project_code@, task_id@, end@, start@, title@),
        ));
    }
    string_from_chars(&out)
}

/// The line encoding an entry, without its newline.
pub fn encode_line(e: &TimeEntry) -> (r: String)
    ensures
        r@ == encode_line_spec(e@),
{
    encode_line_from_parts(
        e.project_code.as_str(),
        e.task_id.as_str(),
        e.end.as_str(),
        e.start.as_str(),
        e.title.as_str(),
    )
}

// ---------------------------------------------------------------------------
// Executable tokenizing
// ---------------------------------------------------------------------------

/// Where the tokenizer stands in a line.
enum TokMode {
    /// Between tokens.
    Blank,
    /// Inside an unquoted part of a token.
    Word,
    /// Inside a double-quoted part of a token.
    Quoted,
}

/// The tokens already emitted, prepended to those of the rest of the line.
pub open spec fn opt_prepend(
    done: Seq<Seq<char>>,
    rest: Option<Seq<Seq<char>>>,
) -> Option<Seq<Seq<char>>> {
    match rest {
        Some(ts) => Some(done + ts),
        None => None,
    }
}

/// Splits one line into its tokens; `None` when the line is malformed.
pub fn tokenize(line: &Vec<char>) -> (r: Option<Vec<Vec<char>>>)
    ensures
        match r {
            Some(ts) => tokens_of(line@) == Some(ts.deep_view()),
            None => tokens_of(line@) is None,
        },
{
    let n = line.len();
    let mut out: Vec<Vec<char>> = Vec::new();
    let mut cur: Vec<char> = Vec::new();
    let mut mode = TokMode::Blank;
    let mut i: usize = 0;
    proof {
        assert(line@.skip(0) =~= line@);
        assert(out.deep_view() =~= Seq::<Seq<char>>::empty());
        match toks_blank(line@) {
            Some(ts) => {
                assert(out.deep_view() + ts =~~= ts);
            },
            None => {},
        }
    }
    while i < n
        invariant
            i <= n,
            n == line@.len(),
            tokens_of(line@) == match mode {
                TokMode::Blank => opt_prepend(out.deep_view(), toks_blank(line@.skip(i as int))),
                TokMode::Word => opt_prepend(
                    out.deep_view(),
                    toks_word(line@.skip(i as int), cur@),
                ),
                TokMode::Quoted => opt_prepend(
                    out.deep_view(),
                    toks_quoted(line@.skip(i as int), cur@),
                ),
            },
            mode is Blank ==> cur@ == Seq::<char>::empty(),
        decreases n - i, (if mode is Blank { 1int } else { 0int }),
    {
        let c = line[i];
        let ghost rest = line@.skip(i as int);
        let ghost done = out.deep_view();
        proof {
            assert(rest.len() > 0);
            assert(rest[0] == line@[i as int]);
            assert(rest.drop_first() =~= line@.skip(i + 1 as int));
        }
        match mode {
            TokMode::Blank => {
                if blank_char(c) {
                    i += 1;
                } else {
                    mode = TokMode::Word;
                    proof {
                        assert(toks_blank(rest) == toks_word(rest, cur@));
                    }
                }
            },
            TokMode::Word => {
                if blank_char(c) {
                    let ghost cur0 = cur@;
                    out.push(cur);
                    cur = Vec::new();
                    mode = TokMode::Blank;
                    i += 1;
                    proof {
                        assert(out.deep_view() =~~= done.push(cur0));
                        match toks_blank(line@.skip(i as int)) {
                            Some(ts) => {
                                assert(toks_word(rest, cur0) == Some(seq![cur0] + ts));
                                assert(done + (seq![cur0] + ts) =~~= done.push(cur0) + ts);
                            },
                            None => {},
                        }
                    }
                } else if c == '"' {
                    mode = TokMode::Quoted;
                    i += 1;
                } else {
                    cur.push(c);
                    i += 1;
                }
            },
            TokMode::Quoted => {
                if c == '"' {
                    mode = TokMode::Word;
                    i += 1;
                } else if c == '\\' {
                    if i + 1 < n {
                        let c2 = line[i + 1];
                        if c2 == '"' || c2 == '\\' {
                            cur.push(c2);
                            proof {
                                assert(rest.len() >= 2);
                                assert(rest[1] == line@[i + 1 as int]);
                                assert(rest.skip(2) =~= line@.skip(i + 2 as int));
                            }
                            i += 2;
                        } else {
                            proof {
                                assert(rest[1] == line@[i + 1 as int]);
                                assert(toks_quoted(rest, cur@) is None);
                            }
                            return None;
                        }
                    } else {
                        proof {
                            assert(rest.len() == 1);
                            assert(toks_quoted(rest, cur@) is None);
                        }
                        return None;
                    }
                } else {
                    cur.push(c);
                    i += 1;
                }
            },
        }
    }
    proof {
        assert(line@.skip(n as int) =~= Seq::<char>::empty());
    }
    match mode {
        TokMode::Blank => {
            proof {
                assert(toks_blank(line@.skip(n as int)) == Some(Seq::<Seq<char>>::empty()));
                assert(out.deep_view() + Seq::<Seq<char>>::empty() =~~= out.deep_view());
            }
            Some(out)
        },
        TokMode::Word => {
            let ghost done = out.deep_view();
            let ghost cur0 = cur@;
            out.push(cur);
            proof {
                assert(toks_word(line@.skip(n as int), cur0) == Some(seq![cur0]));
                assert(out.deep_view() =~~= done + seq![cur0]);
            }
            Some(out)
        },
        TokMode::Quoted => {
            proof {
                assert(toks_quoted(line@.skip(n as int), cur@) is None);
            }
            None
        },
    }
}

/// Parses one line into an entry; `None` unless it holds exactly five tokens.
pub fn parse_line(line: &Vec<char>) -> (r: Option<TimeEntry>)
    ensures
        match r {
            Some(e) => parse_line_spec(line@) == Some(e@),
            None => parse_line_spec(line@) is None,
        },
{
    match tokenize(line) {
        None => None,
        Some(ts) => {
            if ts.len() == 5 {
                let e = TimeEntry {
                    project_code: string_from_chars(&ts[0]),
                    task_id: string_from_chars(&ts[1]),
                    end: string_from_chars(&ts[2]),
                    start: string_from_chars(&ts[3]),
                    title: string_from_chars(&ts[4]),
                };
                proof {
                    assert(ts.deep_view().len() == 5);
                    assert(ts.deep_view()[0] == ts@[0]@);
                    assert(ts.deep_view()[1] == ts@[1]@);
                    assert(ts.deep_view()[2] == ts@[2]@);
                    assert(ts.deep_view()[3] == ts@[3]@);
                    assert(ts.deep_view()[4] == ts@[4]@);
                }
                Some(e)
            } else {
                None
            }
        },
    }
}

// ---------------------------------------------------------------------------
// Lines of a file
// ---------------------------------------------------------------------------

/// The lines of `s` when the collected characters of the line in progress
/// are `cur`; a final line without a terminating newline still counts, and
/// a terminating newline opens no empty extra line.
pub open spec fn split_lines_from(s: Seq<char>, cur: Seq<char>) -> Seq<Seq<char>>
    decreases s.len(),
{
    if s.len() == 0 {
        if cur.len() == 0 {
            Seq::empty()
        } else {
            seq![cur]
        }
    } else if s[0] == '\n' {
        seq![cur] + split_lines_from(s.drop_first(), Seq::empty())
    } else {
        split_lines_from(s.drop_first(), cur.push(s[0]))
    }
}

/// The lines of a file's text.
pub open spec fn split_lines(s: Seq<char>) -> Seq<Seq<char>> {
    split_lines_from(s, Seq::empty())
}

/// Splits a file's text into its lines.
pub fn split_text_lines(text: &Vec<char>) -> (r: Vec<Vec<char>>)
    ensures
        r.deep_view() == split_lines(text@),
{
    let n = text.len();
    let mut out: Vec<Vec<char>> = Vec::new();
    let mut cur: Vec<char> = Vec::new();
    let mut i: usize = 0;
    proof {
        assert(text@.skip(0) =~= text@);
        assert(out.deep_view() =~= Seq::<Seq<char>>::empty());
        assert(out.deep_view() + split_lines_from(text@, Seq::<char>::empty())
            =~~= split_lines_from(text@, Seq::<char>::empty()));
    }
    while i < n
        invariant
            i <= n,
            n == text@.len(),
            split_lines(text@) == out.deep_view() + split_lines_from(
                text@.skip(i as int),
                cur@,
            ),
        decreases n - i,
    {
        let c = text[i];
        let ghost rest = text@.skip(i as int);
        let ghost done = out.deep_view();
        proof {
            assert(rest[0] == text@[i as int]);
            assert(rest.drop_first() =~= text@.skip(i + 1 as int));
        }
        if c == '\n' {
            let ghost cur0 = cur@;
            out.push(cur);
            cur = Vec::new();
            proof {
                assert(out.deep_view() =~~= done.push(cur0));
                assert(done + (seq![cur0] + split_lines_from(text@.skip(i + 1 as int), cur@))
                    =~~= done.push(cur0) + split_lines_from(text@.skip(i + 1 as int), cur@));
            }
        } else {
            cur.push(c);
        }
        i += 1;
    }
    proof {
        assert(text@.skip(n as int) =~= Seq::<char>::empty());
    }
    if cur.len() > 0 {
        let ghost done = out.deep_view();
        let ghost cur0 = cur@;
        out.push(cur);
        proof {
            assert(out.deep_view() =~~= done + seq![cur0]);
        }
        out
    } else {
        proof {
            assert(out.deep_view() + Seq::<Seq<char>>::empty() =~~= out.deep_view());
        }
        out
    }
}

/// The first line of a file's text: everything before the first newline.
pub open spec fn first_line_of(s: Seq<char>) -> Seq<char>
    decreases s.len(),
{
    if s.len() == 0 {
        Seq::empty()
    } else if s[0] == '\n' {
        Seq::empty()
    } else {
        seq![s[0]] + first_line_of(s.drop_first())
    }
}

/// Reads the first line of a file's text.
pub fn first_line(text: &Vec<char>) -> (r: Vec<char>)
    ensures
        r@ == first_line_of(text@),
{
    let n = text.len();
    let mut cur: Vec<char> = Vec::new();
    let mut i: usize = 0;
    proof {
        assert(text@.skip(0) =~= text@);
    }
    while i < n
        invariant
            i <= n,
            n == text@.len(),
            first_line_of(text@) == cur@ + first_line_of(text@.skip(i as int)),
        decreases n - i,
    {
        let c = text[i];
        let ghost rest = text@.skip(i as int);
        proof {
            assert(rest[0] == text@[i as int]);
            assert(rest.drop_first() =~= text@.skip(i + 1 as int));
        }
        if c == '\n' {
            proof {
                assert(first_line_of(rest) =~= Seq::<char>::empty());
                assert(first_line_of(text@) =~= cur@);
            }
            return cur;
        }
        cur.push(c);
        proof {
            assert(cur@ + first_line_of(text@.skip(i + 1 as int)) =~= first_line_of(text@));
        }
        i += 1;
    }
    proof {
        assert(text@.skip(n as int) =~= Seq::<char>::empty());
        assert(first_line_of(text@) =~= cur@);
    }
    cur
}

// ---------------------------------------------------------------------------
// The log as a whole
// ---------------------------------------------------------------------------

/// No newline character occurs in `s`.
pub open spec fn no_nl(s: Seq<char>) -> bool {
    forall|i: int| 0 <= i < s.len() ==> s[i] != '\n'
}

/// No newline character occurs in any field of `e`; only such entries can
/// be stored on one line.
pub open spec fn fields_no_nl(e: EntrySpec) -> bool {
    no_nl(e.project_code) && no_nl(e.task_id) && no_nl(e.title) && no_nl(e.start) && no_nl(
        e.end,
    )
}

/// The text is empty or ends with a newline, as a log file written one
/// appended line at a time always is.
pub open spec fn nl_terminated(s: Seq<char>) -> bool {
    s.len() == 0 || s[s.len() - 1] == '\n'
}

/// The entries of a log file's text, or `None` when some line is malformed.
pub open spec fn parse_log_spec(s: Seq<char>) -> Option<Seq<EntrySpec>> {
    let ls = split_lines(s);
    if forall|i: int| 0 <= i < ls.len() ==> (#[trigger] parse_line_spec(ls[i])) is Some {
        Some(Seq::new(ls.len(), |i: int| parse_line_spec(ls[i])->Some_0))
    } else {
        None
    }
}

// ---------------------------------------------------------------------------
// Round trip: a line parses back to the entry it encodes
// ---------------------------------------------------------------------------

/// Unproblematic characters are consumed into the current token unchanged.
proof fn lemma_word_plain(p: Seq<char>, rest: Seq<char>, cur: Seq<char>)
    requires
        forall|i: int| 0 <= i < p.len() ==> !needs_quoting_char(p[i]),
    ensures
        toks_word(p + rest, cur) == toks_word(rest, cur + p),
    decreases p.len(),
{
    if p.len() == 0 {
        assert(p + rest =~= rest);
        assert(cur + p =~= cur);
    } else {
        let c = p[0];
        assert(!needs_quoting_char(c));
        assert((p + rest)[0] == c);
        assert((p + rest).drop_first() =~= p.drop_first() + rest);
        assert(forall|i: int|
            0 <= i < p.drop_first().len() ==> !needs_quoting_char(p.drop_first()[i])) by {
            assert(forall|i: int| 0 <= i < p.drop_first().len() ==> p.drop_first()[i] == p[i + 1]);
        }
        lemma_word_plain(p.drop_first(), rest, cur.push(c));
        assert(cur.push(c) + p.drop_first() =~= cur + p);
    }
}

/// Escaped characters inside quotes are consumed unchanged.
proof fn lemma_quoted_esc(t: Seq<char>, rest: Seq<char>, cur: Seq<char>)
    ensures
        toks_quoted(esc(t) + rest, cur) == toks_quoted(rest, cur + t),
    decreases t.len(),
{
    if t.len() == 0 {
        assert(esc(t) + rest =~= rest);
        assert(cur + t =~= cur);
    } else {
        let c = t[0];
        let s = esc(t) + rest;
        if c == '"' || c == '\\' {
            assert(esc_char(c) == seq!['\\', c]);
            assert(s.len() >= 2);
            assert(s[0] == '\\');
            assert(s[1] == c);
            assert(s.skip(2) =~= esc(t.drop_first()) + rest);
            lemma_quoted_esc(t.drop_first(), rest, cur.push(c));
            assert(cur.push(c) + t.drop_first() =~= cur + t);
        } else {
            assert(esc_char(c) == seq![c]);
            assert(s[0] == c);
            assert(s.drop_first() =~= esc(t.drop_first()) + rest);
            lemma_quoted_esc(t.drop_first(), rest, cur.push(c));
            assert(cur.push(c) + t.drop_first() =~= cur + t);
        }
    }
}

/// A quoted field contributes exactly its characters to the current token.
proof fn lemma_word_quoted(t: Seq<char>, rest: Seq<char>, cur: Seq<char>)
    ensures
        toks_word(quoted(t) + rest, cur) == toks_word(rest, cur + t),
{
    let s = quoted(t) + rest;
    assert(s[0] == '"');
    assert(!is_blank('"'));
    assert(s.drop_first() =~= esc(t) + (seq!['"'] + rest));
    lemma_quoted_esc(t, seq!['"'] + rest, cur);
    let s2 = seq!['"'] + rest;
    assert(s2[0] == '"');
    assert(s2.drop_first() =~= rest);
}

/// A field as written contributes exactly its characters to the token.
proof fn lemma_word_field(f: Seq<char>, rest: Seq<char>, cur: Seq<char>)
    ensures
        toks_word(field_token(f) + rest, cur) == toks_word(rest, cur + f),
{
    if plain_token(f) {
        lemma_word_plain(f, rest, cur);
    } else {
        lemma_word_quoted(f, rest, cur);
    }
}

/// An encoded field and a space emit that field as one whole token.
proof fn lemma_blank_field_sep(f: Seq<char>, rest: Seq<char>)
    ensures
        toks_blank(field_token(f) + seq![' '] + rest) == opt_prepend(
            seq![f],
            toks_blank(rest),
        ),
{
    let s = field_token(f) + seq![' '] + rest;
    assert(field_token(f).len() > 0);
    assert(s[0] == field_token(f)[0]);
    if plain_token(f) {
        assert(!needs_quoting_char(f[0]));
        assert(!is_blank(s[0]));
    } else {
        assert(field_token(f)[0] == '"');
        assert(!is_blank(s[0]));
    }
    assert(s =~= field_token(f) + (seq![' '] + rest));
    lemma_word_field(f, seq![' '] + rest, Seq::empty());
    assert(Seq::empty() + f =~= f);
    let s2 = seq![' '] + rest;
    assert(s2[0] == ' ');
    assert(is_blank(' '));
    assert(s2.drop_first() =~= rest);
}

/// A line that ends with a quoted field emits it as the last token.
proof fn lemma_blank_last_quoted(t: Seq<char>)
    ensures
        toks_blank(quoted(t)) == Some(seq![t]),
{
    let s = quoted(t);
    assert(s[0] == '"');
    assert(!is_blank('"'));
    assert(s =~= quoted(t) + Seq::<char>::empty());
    lemma_word_quoted(t, Seq::empty(), Seq::empty());
    assert(Seq::empty() + t =~= t);
}

/// The round trip of the line grammar: the line encoding an entry parses
/// back to exactly that entry, whatever its fields hold.
pub proof fn lemma_encode_round_trip(e: EntrySpec)
    ensures
        parse_line_spec(encode_line_spec(e)) == Some(e),
{
    let line = encode_line_spec(e);
    let tail4 = quoted(e.title);
    let tail3 = field_token(e.start) + seq![' '] + tail4;
    let tail2 = field_token(e.end) + seq![' '] + tail3;
    let tail1 = field_token(e.task_id) + seq![' '] + tail2;
    assert(line =~= field_token(e.project_code) + seq![' '] + tail1);
    lemma_blank_last_quoted(e.title);
    lemma_blank_field_sep(e.start, tail4);
    lemma_blank_field_sep(e.end, tail3);
    lemma_blank_field_sep(e.task_id, tail2);
    lemma_blank_field_sep(e.project_code, tail1);
    assert(toks_blank(tail3) == Some(seq![e.start] + seq![e.title]));
    assert(toks_blank(tail2) == Some(seq![e.end] + (seq![e.start] + seq![e.title])));
    assert(toks_blank(tail1) == Some(
        seq![e.task_id] + (seq![e.end] + (seq![e.start] + seq![e.title])),
    ));
    let ts = seq![e.project_code] + (seq![e.task_id] + (seq![e.end] + (seq![e.start]
        + seq![e.title])));
    assert(tokens_of(line) == Some(ts));
    assert(ts =~= seq![e.project_code, e.task_id, e.end, e.start, e.title]);
    assert(ts.len() == 5);
    assert(parse_line_spec(line) == Some(entry_of(ts[0], ts[1], ts[2], ts[3], ts[4])));
    assert(entry_of(ts[0], ts[1], ts[2], ts[3], ts[4]) == e);
}

// ---------------------------------------------------------------------------
// Newlines: what stays on one line
// ---------------------------------------------------------------------------

/// Escaping introduces no newline.
proof fn lemma_esc_no_nl(s: Seq<char>)
    requires
        no_nl(s),
    ensures
        no_nl(esc(s)),
    decreases s.len(),
{
    if s.len() > 0 {
        assert(forall|i: int| 0 <= i < s.drop_first().len() ==> s.drop_first()[i] == s[i + 1]);
        lemma_esc_no_nl(s.drop_first());
        assert(esc_char(s[0]).len() <= 2);
        assert(forall|i: int| 0 <= i < esc_char(s[0]).len() ==> esc_char(s[0])[i] != '\n');
    }
}

/// The line encoding an entry with newline-free fields has no newline.
pub proof fn lemma_encode_no_nl(e: EntrySpec)
    requires
        fields_no_nl(e),
    ensures
        no_nl(encode_line_spec(e)),
{
    lemma_field_no_nl(e.project_code);
    lemma_field_no_nl(e.task_id);
    lemma_field_no_nl(e.end);
    lemma_field_no_nl(e.start);
    lemma_esc_no_nl(e.title);
    assert(no_nl(quoted(e.title)));
}

/// A field written out keeps its newline-freeness.
proof fn lemma_field_no_nl(f: Seq<char>)
    requires
        no_nl(f),
    ensures
        no_nl(field_token(f)),
{
    if !plain_token(f) {
        lemma_esc_no_nl(f);
        assert(no_nl(quoted(f)));
    }
}

/// Tokens of a newline-free line are newline-free: between tokens.
proof fn lemma_toks_blank_no_nl(s: Seq<char>)
    requires
        no_nl(s),
        toks_blank(s) is Some,
    ensures
        forall|i: int|
            0 <= i < toks_blank(s)->Some_0.len() ==> no_nl(#[trigger] toks_blank(s)->Some_0[i]),
    decreases s.len(), 1int,
{
    if s.len() == 0 {
    } else if is_blank(s[0]) {
        assert(forall|i: int| 0 <= i < s.drop_first().len() ==> s.drop_first()[i] == s[i + 1]);
        lemma_toks_blank_no_nl(s.drop_first());
    } else {
        lemma_toks_word_no_nl(s, Seq::empty());
    }
}

/// Tokens of a newline-free line are newline-free: inside a token.
proof fn lemma_toks_word_no_nl(s: Seq<char>, cur: Seq<char>)
    requires
        no_nl(s),
        no_nl(cur),
        toks_word(s, cur) is Some,
    ensures
        forall|i: int|
            0 <= i < toks_word(s, cur)->Some_0.len() ==> no_nl(
                #[trigger] toks_word(s, cur)->Some_0[i],
            ),
    decreases s.len(), 0int,
{
    if s.len() == 0 {
        assert(toks_word(s, cur)->Some_0 == seq![cur]);
    } else if is_blank(s[0]) {
        assert(forall|i: int| 0 <= i < s.drop_first().len() ==> s.drop_first()[i] == s[i + 1]);
        lemma_toks_blank_no_nl(s.drop_first());
        let ts = toks_blank(s.drop_first())->Some_0;
        assert(forall|i: int|
            0 <= i < (seq![cur] + ts).len() ==> no_nl(#[trigger] (seq![cur] + ts)[i])) by {
            assert(forall|i: int|
                1 <= i < (seq![cur] + ts).len() ==> (seq![cur] + ts)[i] == ts[i - 1]);
        }
    } else if s[0] == '"' {
        assert(forall|i: int| 0 <= i < s.drop_first().len() ==> s.drop_first()[i] == s[i + 1]);
        lemma_toks_quoted_no_nl(s.drop_first(), cur);
    } else {
        assert(forall|i: int| 0 <= i < s.drop_first().len() ==> s.drop_first()[i] == s[i + 1]);
        assert(no_nl(cur.push(s[0])));
        lemma_toks_word_no_nl(s.drop_first(), cur.push(s[0]));
    }
}

/// Tokens of a newline-free line are newline-free: inside quotes.
proof fn lemma_toks_quoted_no_nl(s: Seq<char>, cur: Seq<char>)
    requires
        no_nl(s),
        no_nl(cur),
        toks_quoted(s, cur) is Some,
    ensures
        forall|i: int|
            0 <= i < toks_quoted(s, cur)->Some_0.len() ==> no_nl(
                #[trigger] toks_quoted(s, cur)->Some_0[i],
            ),
    decreases s.len(), 1int,
{
    if s.len() == 0 {
    } else if s[0] == '"' {
        assert(forall|i: int| 0 <= i < s.drop_first().len() ==> s.drop_first()[i] == s[i + 1]);
        lemma_toks_word_no_nl(s.drop_first(), cur);
    } else if s[0] == '\\' {
        if s.len() >= 2 && (s[1] == '"' || s[1] == '\\') {
            assert(forall|i: int| 0 <= i < s.skip(2).len() ==> s.skip(2)[i] == s[i + 2]);
            assert(no_nl(cur.push(s[1])));
            lemma_toks_quoted_no_nl(s.skip(2), cur.push(s[1]));
        }
    } else {
        assert(forall|i: int| 0 <= i < s.drop_first().len() ==> s.drop_first()[i] == s[i + 1]);
        assert(no_nl(cur.push(s[0])));
        lemma_toks_quoted_no_nl(s.drop_first(), cur.push(s[0]));
    }
}

/// An entry parsed from a newline-free line has newline-free fields.
pub proof fn lemma_parse_line_no_nl(line: Seq<char>)
    requires
        no_nl(line),
        parse_line_spec(line) is Some,
    ensures
        fields_no_nl(parse_line_spec(line)->Some_0),
{
    lemma_toks_blank_no_nl(line);
}

/// The first line of any text holds no newline.
pub proof fn lemma_first_line_no_nl(s: Seq<char>)
    ensures
        no_nl(first_line_of(s)),
    decreases s.len(),
{
    if s.len() == 0 || s[0] == '\n' {
    } else {
        lemma_first_line_no_nl(s.drop_first());
        let f = seq![s[0]] + first_line_of(s.drop_first());
        assert(forall|i: int|
            1 <= i < f.len() ==> f[i] == first_line_of(s.drop_first())[i - 1]);
    }
}

/// The first line of a one-line text is that line.
pub proof fn lemma_first_line_append(l: Seq<char>, rest: Seq<char>)
    requires
        no_nl(l),
    ensures
        first_line_of(l + seq!['\n'] + rest) == l,
    decreases l.len(),
{
    let s = l + seq!['\n'] + rest;
    if l.len() == 0 {
        assert(s[0] == '\n');
    } else {
        assert(s[0] == l[0]);
        assert(s[0] != '\n');
        assert(s.drop_first() =~= l.drop_first() + seq!['\n'] + rest);
        assert(forall|i: int| 0 <= i < l.drop_first().len() ==> l.drop_first()[i] == l[i + 1]);
        lemma_first_line_append(l.drop_first(), rest);
        assert(seq![l[0]] + l.drop_first() =~= l);
    }
}

// ---------------------------------------------------------------------------
// Appending one line to the log
// ---------------------------------------------------------------------------

/// Splitting distributes over a newline-terminated prefix.
proof fn lemma_split_from_concat(s: Seq<char>, t: Seq<char>, cur: Seq<char>)
    requires
        s.len() > 0,
        s[s.len() - 1] == '\n',
    ensures
        split_lines_from(s + t, cur) == split_lines_from(s, cur) + split_lines_from(
            t,
            Seq::empty(),
        ),
    decreases s.len(),
{
    let c = s[0];
    assert((s + t)[0] == c);
    assert((s + t).drop_first() =~= s.drop_first() + t);
    if s.len() == 1 {
        assert(c == '\n');
        assert(s.drop_first() =~= Seq::<char>::empty());
        assert((s + t).drop_first() =~= t);
        assert(split_lines_from(s, cur) =~~= seq![cur]);
        assert(seq![cur] + split_lines_from(t, Seq::empty()) =~~= split_lines_from(s, cur)
            + split_lines_from(t, Seq::empty()));
    } else {
        assert(s.drop_first().len() > 0);
        assert(s.drop_first()[s.drop_first().len() - 1] == s[s.len() - 1]);
        if c == '\n' {
            lemma_split_from_concat(s.drop_first(), t, Seq::empty());
            assert(seq![cur] + (split_lines_from(s.drop_first(), Seq::empty())
                + split_lines_from(t, Seq::empty())) =~~= (seq![cur] + split_lines_from(
                s.drop_first(),
                Seq::empty(),
            )) + split_lines_from(t, Seq::empty()));
        } else {
            lemma_split_from_concat(s.drop_first(), t, cur.push(c));
        }
    }
}

/// One newline-terminated, newline-free line splits into itself alone.
proof fn lemma_split_single_line(l: Seq<char>, cur: Seq<char>)
    requires
        no_nl(l),
    ensures
        split_lines_from(l + seq!['\n'], cur) == seq![cur + l],
    decreases l.len(),
{
    let s = l + seq!['\n'];
    if l.len() == 0 {
        assert(s =~= seq!['\n']);
        assert(s[0] == '\n');
        assert(s.drop_first() =~= Seq::<char>::empty());
        assert(split_lines_from(Seq::<char>::empty(), Seq::<char>::empty())
            =~~= Seq::<Seq<char>>::empty());
        assert(split_lines_from(s, cur) =~~= seq![cur]);
        assert(cur + l =~= cur);
    } else {
        let c = l[0];
        assert(s[0] == c);
        assert(c != '\n');
        assert(s.drop_first() =~= l.drop_first() + seq!['\n']);
        assert(forall|i: int| 0 <= i < l.drop_first().len() ==> l.drop_first()[i] == l[i + 1]);
        lemma_split_single_line(l.drop_first(), cur.push(c));
        assert(cur.push(c) + l.drop_first() =~= cur + l);
    }
}

/// Appending one newline-terminated line to a newline-terminated log text
/// appends exactly one line to its line sequence.
pub proof fn lemma_split_append_line(s: Seq<char>, l: Seq<char>)
    requires
        nl_terminated(s),
        no_nl(l),
    ensures
        split_lines(s + l + seq!['\n']) == split_lines(s).push(l),
{
    assert(s + l + seq!['\n'] =~= s + (l + seq!['\n']));
    if s.len() == 0 {
        assert(s + (l + seq!['\n']) =~= l + seq!['\n']);
        lemma_split_single_line(l, Seq::empty());
        assert(Seq::empty() + l =~= l);
        assert(split_lines(s) =~~= Seq::<Seq<char>>::empty());
        assert(seq![l] =~~= split_lines(s).push(l));
    } else {
        lemma_split_from_concat(s, l + seq!['\n'], Seq::empty());
        lemma_split_single_line(l, Seq::empty());
        assert(Seq::empty() + l =~= l);
        assert(split_lines(s) + seq![l] =~~= split_lines(s).push(l));
    }
}

/// Appending the line of an entry with newline-free fields to a
/// well-formed log text appends exactly that entry to the parsed log.
pub proof fn lemma_parse_log_append(s: Seq<char>, e: EntrySpec)
    requires
        nl_terminated(s),
        fields_no_nl(e),
    ensures
        parse_log_spec(s + encode_line_spec(e) + seq!['\n']) == match parse_log_spec(s) {
            Some(es) => Some(es.push(e)),
            None => None,
        },
{
    let line = encode_line_spec(e);
    lemma_encode_no_nl(e);
    lemma_split_append_line(s, line);
    lemma_encode_round_trip(e);
    let ls0 = split_lines(s);
    let ls1 = split_lines(s + line + seq!['\n']);
    assert(ls1 == ls0.push(line));
    assert(forall|i: int| 0 <= i < ls0.len() ==> ls1[i] == ls0[i]);
    assert(ls1[ls1.len() - 1] == line);
    if parse_log_spec(s) is Some {
        let es0 = parse_log_spec(s)->Some_0;
        assert(forall|i: int| 0 <= i < ls1.len() ==> (#[trigger] parse_line_spec(ls1[i]))
            is Some) by {
            assert(forall|i: int| 0 <= i < ls0.len() ==> (#[trigger] parse_line_spec(ls0[i]))
                is Some);
        }
        let es1 = parse_log_spec(s + line + seq!['\n'])->Some_0;
        assert(es1 =~= es0.push(e));
    } else {
        let j = choose|j: int| 0 <= j < ls0.len() && !((#[trigger] parse_line_spec(ls0[j]))
            is Some);
        assert(parse_line_spec(ls1[j]) == parse_line_spec(ls0[j]));
        assert(parse_log_spec(s + line + seq!['\n']) is None);
    }
}

} // verus!
