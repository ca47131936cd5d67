//! Where documents come from: a local directory or a base URL. Reading files
//! and fetching URLs is the caller's work; this module decides which kind of
//! source a configured location names, where a document lives within it, and
//! how an HTTP status is judged.
use crate::text::{is_prefix, starts_with};
use vstd::prelude::*;

verus! {

/// std's `PathBuf`, held opaque: a local source only carries its directory
/// to the caller, which reads files under it.
#[verifier::external_type_specification]
#[verifier::external_body]
pub struct ExPathBuf(std::path::PathBuf);

/// Documents under a local directory.
pub struct LocalDataSource {
    pub base_path: std::path::PathBuf,
}

impl LocalDataSource {
    pub fn new(base_path: std::path::PathBuf) -> (r: Self)
        ensures
            r.base_path == base_path,
    {
        LocalDataSource { base_path }
    }
}

/// `s` without its trailing slashes.
pub open spec fn trim_slashes(s: Seq<char>) -> Seq<char>
    decreases s.len(),
{
    if s.len() > 0 && s.last() == '/' {
        trim_slashes(s.drop_last())
    } else {
        s
    }
}

/// Documents served under a base URL.
pub struct RemoteDataSource {
    /// The base URL, without trailing slashes.
    pub base_url: String,
}

impl RemoteDataSource {
    pub fn new(base_url: String) -> (r: Self)
        ensures
            r.base_url@ == trim_slashes(base_url@),
    {
        let n = base_url.unicode_len();
        let mut k: usize = n;
        assert(base_url@.take(n as int) =~= base_url@);
        while k > 0 && base_url.get_char(k - 1) == '/'
            invariant
                n == base_url@.len(),
                k <= n,
                trim_slashes(base_url@) == trim_slashes(base_url@.take(k as int)),
            decreases k,
        {
            assert(base_url@.take(k as int).drop_last() =~= base_url@.take(k - 1));
            k = k - 1;
        }
        RemoteDataSource { base_url: String::from_str(base_url.as_str().substring_char(0, k)) }
    }

    /// The URL of the document at `relative_path`: the base URL and the path
    /// joined by one `/`.
    pub fn url_for(&self, relative_path: &str) -> (r: String)
        ensures
            r@ == self.base_url@ + "/"@ + relative_path@,
    {
        let mut r = self.base_url.clone();
        r.append("/");
        r.append(relative_path);
        r
    }
}

/// The kind of source that a configured location names.
pub enum SourceChoice {
    /// A local directory, by its path.
    Local(String),
    Remote(RemoteDataSource),
}

/// A location names a remote source when it starts with `http://` or `https://`.
pub open spec fn is_remote_location(s: Seq<char>) -> bool {
    is_prefix("http://"@, s) || is_prefix("https://"@, s)
}

/// The source that `location` names.
pub fn select_source(location: String) -> (r: SourceChoice)
    ensures
        is_remote_location(location@) ==> r is Remote && r->Remote_0.base_url@ == trim_slashes(
            location@,
        ),
        !is_remote_location(location@) ==> r is Local && r->Local_0@ == location@,
{
    if starts_with(location.as_str(), "http://") || starts_with(location.as_str(), "https://") {
        SourceChoice::Remote(RemoteDataSource::new(location))
    } else {
        SourceChoice::Local(location)
    }
}

/// The decimal digits of `n`.
pub open spec fn decimal(n: nat) -> Seq<char>
    decreases n,
{
    if n < 10 {
        seq!["0123456789"@[n as int]]
    } else {
        decimal(n / 10) + seq!["0123456789"@[(n % 10) as int]]
    }
}

/// The decimal text of `n`.
pub fn decimal_of(n: u16) -> (r: String)
    ensures
        r@ == decimal(n as nat),
    decreases n,
{
    proof {
        reveal_strlit("0123456789");
    }
    let d = (n % 10) as usize;
    let digit = "0123456789".substring_char(d, d + 1);
    assert(digit@ =~= seq!["0123456789"@[d as int]]);
    if n < 10 {
        String::from_str(digit)
    } else {
        let mut r = decimal_of(n / 10);
        r.append(digit);
        r
    }
}

/// A 2xx status is a success.
pub open spec fn is_success_status(code: u16) -> bool {
    200 <= code < 300
}

/// The failure message for an HTTP status that is not a success: the status as
/// `http::StatusCode` displays it (code and reason phrase), then the reason
/// phrase again.
pub open spec fn status_failure_text(code: u16, reason: Option<Seq<char>>) -> Seq<char> {
    "HTTP "@ + decimal(code as nat) + " "@ + (match reason {
        Some(t) => t,
        None => "<unknown status code>"@,
    }) + ": "@ + (match reason {
        Some(t) => t,
        None => "Unknown"@,
    })
}

/// Judges the status of an HTTP answer, given its code and canonical reason
/// phrase: `None` for a success, else the failure message.
pub fn status_failure(code: u16, reason: Option<&str>) -> (r: Option<String>)
    ensures
        is_success_status(code) <==> r is None,
        r is Some ==> r->0@ == status_failure_text(
            code,
            match reason {
                Some(t) => Some(t@),
                None => None,
            },
        ),
{
    if 200 <= code && code < 300 {
        return None;
    }
    let mut r = String::from_str("HTTP ");
    let digits = decimal_of(code);
    r.append(digits.as_str());
    r.append(" ");
    match reason {
        Some(t) => r.append(t),
        None => r.append("<unknown status code>"),
    }
    r.append(": ");
    match reason {
        Some(t) => r.append(t),
        None => r.append("Unknown"),
    }
    Some(r)
}

} // verus!
