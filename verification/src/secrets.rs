//! Credentials, persisted in the platform's keyring.
//!
//! The vault itself is an external collaborator: nothing can be promised
//! about what it holds between calls, so these functions carry no claims
//! beyond the shape of their results.

use vstd::prelude::*;
use vstd::string::*;
use vstd::utf8::encode_utf8;
use crate::error::Error;
use crate::text::chars_of;
use crate::text::string_from_chars;

verus! {

/// Whitespace trimmed from a secret as entered at a prompt.
pub open spec fn is_trim_ws(c: char) -> bool {
    c == ' ' || c == '\t' || c == '\r' || c == '\n'
}

/// `s` without leading trim-whitespace.
pub open spec fn trim_front(s: Seq<char>) -> Seq<char>
    decreases s.len(),
{
    if s.len() > 0 && is_trim_ws(s[0]) {
        trim_front(s.drop_first())
    } else {
        s
    }
}

/// `s` without trailing trim-whitespace.
pub open spec fn trim_back(s: Seq<char>) -> Seq<char>
    decreases s.len(),
{
    if s.len() > 0 && is_trim_ws(s[s.len() - 1]) {
        trim_back(s.drop_last())
    } else {
        s
    }
}

/// `s` without surrounding trim-whitespace.
pub open spec fn trimmed(s: Seq<char>) -> Seq<char> {
    trim_back(trim_front(s))
}

/// Decides `is_trim_ws`.
fn trim_ws_char(c: char) -> (b: bool)
    ensures
        b == is_trim_ws(c),
{
    c == ' ' || c == '\t' || c == '\r' || c == '\n'
}

/// Trims surrounding whitespace from a string.
pub fn trim_ascii_ws(s: &str) -> (r: String)
    ensures
        r@ == trimmed(s@),
{
    let chars = chars_of(s);
    let n = chars.len();
    let mut lo: usize = 0;
    proof {
        assert(s@.skip(0) =~= s@);
    }
    while lo < n && trim_ws_char(chars[lo])
        invariant
            lo <= n,
            n == s@.len(),
            chars@ == s@,
            trim_front(s@) == trim_front(s@.skip(lo as int)),
        decreases n - lo,
    {
        proof {
            let t = s@.skip(lo as int);
            assert(t[0] == s@[lo as int]);
            assert(t.drop_first() =~= s@.skip(lo + 1 as int));
        }
        lo += 1;
    }
    proof {
        let t = s@.skip(lo as int);
        if lo < n {
            assert(t[0] == s@[lo as int]);
        }
        assert(trim_front(t) == t);
        assert(trim_front(s@) == s@.skip(lo as int));
    }
    let mut hi: usize = n;
    proof {
        assert(s@.subrange(lo as int, hi as int) =~= s@.skip(lo as int));
    }
    while hi > lo && trim_ws_char(chars[hi - 1])
        invariant
            lo <= hi <= n,
            n == s@.len(),
            chars@ == s@,
            trim_front(s@) == s@.skip(lo as int),
            trimmed(s@) == trim_back(s@.subrange(lo as int, hi as int)),
        decreases hi,
    {
        proof {
            let t = s@.subrange(lo as int, hi as int);
            assert(t[t.len() - 1] == s@[hi - 1]);
            assert(t.drop_last() =~= s@.subrange(lo as int, hi - 1 as int));
        }
        hi -= 1;
    }
    proof {
        let t = s@.subrange(lo as int, hi as int);
        if hi > lo {
            assert(t[t.len() - 1] == s@[hi - 1]);
        }
        assert(trim_back(t) == t);
    }
    let mut out: Vec<char> = Vec::new();
    let mut i: usize = lo;
    while i < hi
        invariant
            lo <= i <= hi <= n,
            n == s@.len(),
            chars@ == s@,
            out@ == s@.subrange(lo as int, i as int),
        decreases hi - i,
    {
        out.push(chars[i]);
        proof {
            assert(out@ =~= s@.subrange(lo as int, i + 1 as int));
        }
        i += 1;
    }
    string_from_chars(&out)
}

/// Stores a secret's bytes in the platform keyring.
///
/// Relies on `keyring::Entry::new` and `keyring::Entry::set_secret` with
/// this product's service name; creating the entry and writing it can
/// each fail, and the failure is carried over as an I/O error.
#[verifier::external_body]
fn keyring_set(key: &str, secret: &str) -> (r: Result<(), Error>) {
    match keyring::Entry::new("jired", key) {
        Ok(entry) => match entry.set_secret(secret.as_bytes()) {
            Ok(()) => Ok(()),
            Err(e) => Err(Error::IOError(e.to_string())),
        },
        Err(e) => Err(Error::IOError(e.to_string())),
    }
}

/// Reads a secret's bytes from the platform keyring.
///
/// Relies on `keyring::Entry::new` and `keyring::Entry::get_secret` with
/// this product's service name.
#[verifier::external_body]
fn keyring_get(key: &str) -> (r: Result<Vec<u8>, Error>) {
    match keyring::Entry::new("jired", key) {
        Ok(entry) => match entry.get_secret() {
            Ok(b) => Ok(b),
            Err(e) => Err(Error::IOError(e.to_string())),
        },
        Err(e) => Err(Error::IOError(e.to_string())),
    }
}

/// Deletes a secret from the platform keyring.
///
/// Relies on `keyring::Entry::new` and `keyring::Entry::delete_credential`
/// with this product's service name.
#[verifier::external_body]
fn keyring_delete(key: &str) -> (r: Result<(), Error>) {
    match keyring::Entry::new("jired", key) {
        Ok(entry) => match entry.delete_credential() {
            Ok(()) => Ok(()),
            Err(e) => Err(Error::IOError(e.to_string())),
        },
        Err(e) => Err(Error::IOError(e.to_string())),
    }
}

/// Decodes stored secret bytes as text.
///
/// Relies on `String::from_utf8`: it succeeds exactly when the bytes are
/// valid UTF-8, and then returns the text those bytes encode.
#[verifier::external_body]
fn bytes_to_string(b: Vec<u8>) -> (r: Option<String>)
    ensures
        r matches Some(s) ==> encode_utf8(s@) == b@,
{
    String::from_utf8(b).ok()
}

/// Secrets are managed on the keyring and persist across invocations.
pub struct Secrets {}

impl Secrets {
    /// Stores a secret under the given key, trimmed of the surrounding
    /// whitespace a prompt leaves on it.
    pub fn set(key: &str, secret: &str) -> Result<(), Error> {
        let t = trim_ascii_ws(secret);
        keyring_set(key, t.as_str())
    }

    /// Reads the secret stored under the given key, as text.
    pub fn get(key: &str) -> Result<String, Error> {
        match keyring_get(key) {
            Ok(b) => match bytes_to_string(b) {
                Some(s) => Ok(s),
                None => Err(Error::ParseError(String::from_str("secret is not valid text"))),
            },
            Err(e) => Err(e),
        }
    }

    /// Deletes the secret stored under the given key.
    pub fn delete(key: &str) -> Result<(), Error> {
        keyring_delete(key)
    }
}

} // verus!
