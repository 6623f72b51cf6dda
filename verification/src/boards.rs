//! The ticket board: issue models, the search query, and the selection
//! helpers of the start command.
//!
//! The HTTP traffic to the board and the JSON decoding of its responses
//! live in the application shell; the library holds the issue data as
//! plain values and makes the decisions on them.

use vstd::prelude::*;
use vstd::string::*;
use vstd::seq_lib::*;
use crate::error::Error;
use crate::secrets::Secrets;
use crate::text::chars_of;

verus! {

// ---------------------------------------------------------------------------
// Issues
// ---------------------------------------------------------------------------

/// The model of one issue's fields.
pub ghost struct IssueFieldsSpec {
    pub summary: Seq<char>,
    pub status_name: Seq<char>,
}

/// The model of one issue.
pub ghost struct IssueSpec {
    pub key: Seq<char>,
    pub fields: IssueFieldsSpec,
}

/// The fields of an issue the search reads: its summary and the name of
/// its status category.
pub struct JiraIssueFields {
    pub summary: String,
    pub status_name: String,
}

/// One issue of the board.
pub struct JiraIssue {
    pub key: String,
    pub fields: JiraIssueFields,
}

impl View for JiraIssue {
    type V = IssueSpec;

    open spec fn view(&self) -> IssueSpec {
        IssueSpec {
            key: self.key@,
            fields: IssueFieldsSpec {
                summary: self.fields.summary@,
                status_name: self.fields.status_name@,
            },
        }
    }
}

impl DeepView for JiraIssue {
    type V = IssueSpec;

    open spec fn deep_view(&self) -> IssueSpec {
        self.view()
    }
}

// ---------------------------------------------------------------------------
// The search query
// ---------------------------------------------------------------------------

/// The uppercase form of a string.
pub uninterp spec fn uppercased(s: Seq<char>) -> Seq<char>;

/// Uppercases a project code for the query.
///
/// Relies on `str::to_uppercase`: the uppercase form of a string is a
/// function of its characters alone.
#[verifier::external_body]
fn to_uppercase_string(s: &str) -> (r: String)
    ensures
        r@ == uppercased(s@),
{
    s.to_uppercase()
}

/// The percent-encoded form of a string.
pub uninterp spec fn url_encoded(s: Seq<char>) -> Seq<char>;

/// Percent-encodes a query for use in a URL.
///
/// Relies on `urlencoding::encode`: every byte except ASCII alphanumerics
/// and `-`, `_`, `.`, `~` is percent-encoded, a function of the input
/// alone.
#[verifier::external_body]
fn url_encode_string(s: &str) -> (r: String)
    ensures
        r@ == url_encoded(s@),
{
    urlencoding::encode(s).into_owned()
}

/// The search queries the board answers.
pub enum JiraSearchQuery {
    /// All issues assigned to the user in a specific project.
    IssuesOnProjectQuery,
}

impl JiraSearchQuery {
    /// The full search URL of this query against the given server, for
    /// the given account and project.
    pub fn query(&self, server: &str, account_id: &str, project: &str) -> (r: String)
        ensures
            r@ == "https://"@ + server@ + "/rest/api/3/search?jql="@ + url_encoded(
                "assignee="@ + account_id@ + " and project="@ + uppercased(project@),
            ) + "&fields=key,summary,statusCategory&maxResults=50"@,
    {
        match self {
            JiraSearchQuery::IssuesOnProjectQuery => {
                let upper = to_uppercase_string(project);
                let mut jql = String::from_str("assignee=");
                jql.append(account_id);
                jql.append(" and project=");
                jql.append(upper.as_str());
                let encoded = url_encode_string(jql.as_str());
                let mut out = String::from_str("https://");
                out.append(server);
                out.append("/rest/api/3/search?jql=");
                out.append(encoded.as_str());
                out.append("&fields=key,summary,statusCategory&maxResults=50");
                out
            },
        }
    }
}

// ---------------------------------------------------------------------------
// Searching the issues
// ---------------------------------------------------------------------------

/// `needle` occurs in `hay` as a contiguous run.
pub open spec fn contains_seq(hay: Seq<char>, needle: Seq<char>) -> bool {
    exists|i: int|
        0 <= i <= hay.len() - needle.len() && #[trigger] hay.subrange(i, i + needle.len())
            == needle
}

/// Decides `contains_seq` over the characters of two strings.
pub fn str_contains(hay: &str, needle: &str) -> (r: bool)
    ensures
        r == contains_seq(hay@, needle@),
{
    let h = chars_of(hay);
    let n = chars_of(needle);
    let hn = h.len();
    let nn = n.len();
    if nn == 0 {
        proof {
            assert(hay@.subrange(0, 0 + needle@.len() as int) =~= needle@);
            assert(contains_seq(hay@, needle@));
        }
        return true;
    }
    if nn > hn {
        proof {
            assert(!contains_seq(hay@, needle@));
        }
        return false;
    }
    let mut i: usize = 0;
    while i <= hn - nn
        invariant
            hn == h@.len(),
            nn == n@.len(),
            n@.len() <= h@.len(),
            h@ == hay@,
            n@ == needle@,
            1 <= n@.len(),
            i <= h@.len() - n@.len() + 1,
            forall|k: int|
                0 <= k < i ==> #[trigger] hay@.subrange(k, k + needle@.len()) != needle@,
        decreases h@.len() - n@.len() + 1 - i,
    {
        let mut j: usize = 0;
        let mut matches_here = true;
        while j < nn
            invariant
                hn == h@.len(),
                nn == n@.len(),
                n@.len() <= h@.len(),
                h@ == hay@,
                n@ == needle@,
                i + n@.len() <= h@.len(),
                j <= n@.len(),
                matches_here ==> forall|j2: int|
                    0 <= j2 < j ==> hay@[i + j2] == #[trigger] needle@[j2],
                !matches_here ==> hay@.subrange(i as int, i + needle@.len()) != needle@,
            decreases n@.len() - j,
        {
            if h[i + j] != n[j] {
                proof {
                    assert(hay@.subrange(i as int, i + needle@.len())[j as int] == hay@[i + j]);
                }
                matches_here = false;
                j = nn;
            } else {
                j += 1;
            }
        }
        if matches_here {
            proof {
                assert(hay@.subrange(i as int, i + needle@.len()) =~= needle@);
            }
            return true;
        }
        i += 1;
    }
    proof {
        assert forall|k: int|
            0 <= k <= hay@.len() - needle@.len() implies #[trigger] hay@.subrange(
            k,
            k + needle@.len(),
        ) != needle@ by {
            assert(k < i);
        }
    }
    false
}

/// Lowercased text, for case-insensitive matching.
pub uninterp spec fn lowered(s: Seq<char>) -> Seq<char>;

/// Lowercases an issue summary for matching.
///
/// Relies on `str::to_lowercase`: the lowercase form of a string is a
/// function of its characters alone.
#[verifier::external_body]
fn to_lowercase_string(s: &str) -> (r: String)
    ensures
        r@ == lowered(s@),
{
    s.to_lowercase()
}

/// An issue the fuzzy search keeps: its lowercased summary holds the
/// pattern and its status category is "In Progress".
pub open spec fn issue_matches(i: IssueSpec, pattern: Seq<char>) -> bool {
    contains_seq(lowered(i.fields.summary), pattern) && i.fields.status_name == "In Progress"@
}

/// A copy of an issue, field by field.
fn clone_issue(i: &JiraIssue) -> (r: JiraIssue)
    ensures
        r@ == i@,
{
    JiraIssue {
        key: i.key.clone(),
        fields: JiraIssueFields {
            summary: i.fields.summary.clone(),
            status_name: i.fields.status_name.clone(),
        },
    }
}

/// The issues whose lowercased summary holds the pattern and which are in
/// progress, in their original order.
pub fn fuzzy_search(issues: &Vec<JiraIssue>, pattern: &str) -> (r: Vec<JiraIssue>)
    ensures
        r.deep_view() == issues.deep_view().filter(
            |x: IssueSpec| issue_matches(x, pattern@),
        ),
{
    let ghost pred = |x: IssueSpec| issue_matches(x, pattern@);
    let ghost dv = issues.deep_view();
    let in_progress = String::from_str("In Progress");
    let mut out: Vec<JiraIssue> = Vec::new();
    let mut i: usize = 0;
    proof {
        reveal(Seq::filter);
        assert(dv.take(0) =~= Seq::<IssueSpec>::empty());
        assert(out.deep_view() =~= dv.take(0).filter(pred));
    }
    while i < issues.len()
        invariant
            i <= issues@.len(),
            dv == issues.deep_view(),
            dv.len() == issues@.len(),
            in_progress@ == "In Progress"@,
            out.deep_view() == dv.take(i as int).filter(pred),
            pred == (|x: IssueSpec| issue_matches(x, pattern@)),
        decreases issues@.len() - i,
    {
        let issue = &issues[i];
        proof {
            assert(dv[i as int] == issues@[i as int]@);
        }
        let low = to_lowercase_string(issue.fields.summary.as_str());
        let keep = str_contains(low.as_str(), pattern) && issue.fields.status_name
            == in_progress;
        proof {
            assert(keep == pred(dv[i as int]));
            reveal(Seq::filter);
            assert(dv.take(i + 1 as int).drop_last() =~= dv.take(i as int));
            assert(dv.take(i + 1 as int).last() == dv[i as int]);
        }
        if keep {
            let ghost dv0 = out.deep_view();
            out.push(clone_issue(issue));
            proof {
                assert(out.deep_view() =~= dv0.push(dv[i as int]));
            }
        }
        i += 1;
    }
    proof {
        assert(dv.take(dv.len() as int) =~= dv);
    }
    out
}

/// The issue a user picked from a numbered list, as its key and summary;
/// a selection outside the list yields the empty pair, as the selection
/// prompt does on a bad answer.
pub fn pick_issue(issues: &Vec<JiraIssue>, selection: usize) -> (r: (String, String))
    ensures
        1 <= selection <= issues.deep_view().len() ==> r.0@ == issues.deep_view()[selection
            - 1].key && r.1@ == issues.deep_view()[selection - 1].fields.summary,
        !(1 <= selection <= issues.deep_view().len()) ==> r.0@ == Seq::<char>::empty() && r.1@
            == Seq::<char>::empty(),
{
    if 1 <= selection && selection <= issues.len() {
        let issue = &issues[selection - 1];
        proof {
            assert(issues.deep_view()[selection - 1] == issues@[selection - 1]@);
        }
        (issue.key.clone(), issue.fields.summary.clone())
    } else {
        (String::new(), String::new())
    }
}

// ---------------------------------------------------------------------------
// Credentials of the board
// ---------------------------------------------------------------------------

/// The secrets the board stores, as a closed set of named keys.
#[derive(Clone, Copy, Debug, PartialEq, Eq, Structural)]
pub enum JiraSecrets {
    Username,
    JiraApiToken,
    AccountId,
    Server,
}

impl JiraSecrets {
    /// The key name under which this secret is stored.
    pub fn key_name(&self) -> (r: String)
        ensures
            r@ == match self {
                JiraSecrets::Username => "Username"@,
                JiraSecrets::JiraApiToken => "JiraApiToken"@,
                JiraSecrets::AccountId => "AccountId"@,
                JiraSecrets::Server => "Server"@,
            },
    {
        match self {
            JiraSecrets::Username => String::from_str("Username"),
            JiraSecrets::JiraApiToken => String::from_str("JiraApiToken"),
            JiraSecrets::AccountId => String::from_str("AccountId"),
            JiraSecrets::Server => String::from_str("Server"),
        }
    }

    /// Every secret of the board, in the order logout clears them.
    pub fn all() -> (r: Vec<JiraSecrets>)
        ensures
            r@ == seq![
                JiraSecrets::Username,
                JiraSecrets::JiraApiToken,
                JiraSecrets::AccountId,
                JiraSecrets::Server,
            ],
    {
        let mut v: Vec<JiraSecrets> = Vec::new();
        v.push(JiraSecrets::Username);
        v.push(JiraSecrets::JiraApiToken);
        v.push(JiraSecrets::AccountId);
        v.push(JiraSecrets::Server);
        proof {
            assert(v@ =~= seq![
                JiraSecrets::Username,
                JiraSecrets::JiraApiToken,
                JiraSecrets::AccountId,
                JiraSecrets::Server,
            ]);
        }
        v
    }
}

/// Removes every stored credential of the board, stopping at the first
/// failure as the logout command does.
pub fn logout_jira() -> Result<(), Error> {
    let keys = JiraSecrets::all();
    let mut i: usize = 0;
    while i < keys.len()
        decreases keys@.len() - i,
    {
        let name = keys[i].key_name();
        match Secrets::delete(name.as_str()) {
            Ok(_) => {},
            Err(e) => {
                return Err(e);
            },
        }
        i += 1;
    }
    Ok(())
}

} // verus!
