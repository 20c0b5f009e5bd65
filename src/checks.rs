//! Outcomes of service probes: the two-message failure value, and the
//! decisions that turn what a probe saw into an outcome.
use crate::address::{ipv4_text, Ipv4Address};
use crate::config::{Http, HttpInner};
use crate::text::{contains_text, dec, has_substring, push_decimal, push_signed_decimal, signed_dec};
use vstd::prelude::*;

verus! {

/// A failed probe: a short summary that teams may see, and a long
/// diagnostic for operators.
#[derive(Clone, Debug)]
pub struct CheckError {
    pub short: String,
    pub long: String,
}

/// The outcome of one probe.
pub type CheckResult = Result<(), CheckError>;

impl CheckError {
    pub fn new(short: String, long: String) -> (r: Self)
        ensures
            r.short@ == short@,
            r.long@ == long@,
    {
        CheckError { short, long }
    }

    /// The short and the long message.
    pub fn errors(&self) -> (r: (String, String))
        ensures
            r.0@ == self.short@,
            r.1@ == self.long@,
    {
        (self.short.clone(), self.long.clone())
    }
}

/// The messages to record for an outcome: both empty for a success.
pub fn get_check_result_errors(res: &CheckResult) -> (r: (String, String))
    ensures
        res is Ok ==> r.0@.len() == 0 && r.1@.len() == 0,
        res matches Err(e) ==> r.0@ == e.short@ && r.1@ == e.long@,
{
    match res {
        Ok(_) => (String::new(), String::new()),
        Err(e) => e.errors(),
    }
}

/// The long message of a probe that ran out of time.
pub open spec fn timeout_long(seconds: nat) -> Seq<char> {
    "Timed out after "@ + dec(seconds) + " seconds"@
}

/// The failure recorded for a probe that did not finish within
/// `seconds` seconds.
pub fn timeout_error(seconds: u32) -> (r: CheckError)
    ensures
        r.short@ == "Timed out"@,
        r.long@ == timeout_long(seconds as nat),
{
    let mut long = String::from_str("Timed out after ");
    push_decimal(&mut long, seconds as u64);
    long.append(" seconds");
    CheckError::new(String::from_str("Timed out"), long)
}

/// The long message of a body that lacks the expected text.
pub open spec fn content_mismatch_long(expected: Seq<char>, body: Seq<char>) -> Seq<char> {
    "Content mismatch: expected '"@ + expected + "', got '"@ + body + "'"@
}

/// The long message of a body that the expected pattern does not match.
pub open spec fn pattern_mismatch_long(pattern: Seq<char>, body: Seq<char>) -> Seq<char> {
    "Content mismatch: expected a match of '"@ + pattern + "', got '"@ + body + "'"@
}

/// The long message of a pattern that does not compile.
pub open spec fn invalid_pattern_long(pattern: Seq<char>) -> Seq<char> {
    "Invalid pattern: '"@ + pattern + "'"@
}

/// Whether the regular expression `pattern` compiles.
pub uninterp spec fn regex_compiles(pattern: Seq<char>) -> bool;

/// Whether the compiled regular expression `pattern` matches somewhere in
/// `text`.
pub uninterp spec fn regex_finds(pattern: Seq<char>, text: Seq<char>) -> bool;

/// Relies on `regex::Regex::new`, which fails exactly on patterns that do
/// not compile, and on `regex::Regex::is_match`, which says whether the
/// compiled pattern matches anywhere in the text.
#[verifier::external_body]
pub(crate) fn regex_search(pattern: &str, text: &str) -> (r: Option<bool>)
    ensures
        r is Some <==> regex_compiles(pattern@),
        r matches Some(b) ==> b == regex_finds(pattern@, text@),
{
    match regex::Regex::new(pattern) {
        Ok(re) => Some(re.is_match(text)),
        Err(_) => None,
    }
}

/// An outcome as its two messages.
pub open spec fn outcome(r: CheckResult) -> Result<(), (Seq<char>, Seq<char>)> {
    match r {
        Ok(_) => Ok(()),
        Err(e) => Err((e.short@, e.long@)),
    }
}

/// The outcome of a page's response, given what the page's pattern (if it
/// has one) gave on the body: `None` for a pattern that does not compile.
/// A transport failure comes first (its long message is the transport
/// error itself), then the expected text, then the pattern.
pub open spec fn page_outcome(page: HttpInner, response: Result<String, String>, pattern_found: Option<bool>) -> Result<(), (Seq<char>, Seq<char>)> {
    match response {
        Err(detail) => Err(("Request failed"@, detail@)),
        Ok(body) => if page.contains is Some && !has_substring(body@, page.contains->0@) {
            Err(("Content mismatch"@, content_mismatch_long(page.contains->0@, body@)))
        } else if page.contains_regex is Some && pattern_found is None {
            Err(("Invalid pattern"@, invalid_pattern_long(page.contains_regex->0@)))
        } else if page.contains_regex is Some && pattern_found == Some(false) {
            Err(("Content mismatch"@, pattern_mismatch_long(page.contains_regex->0@, body@)))
        } else {
            Ok(())
        },
    }
}

/// What searching the page's pattern in the body gives: `None` when there
/// is no body, no pattern, or a pattern that does not compile.
pub open spec fn pattern_search(page: HttpInner, response: Result<String, String>) -> Option<bool> {
    match (page.contains_regex, response) {
        (Some(p), Ok(body)) => if regex_compiles(p@) {
            Some(regex_finds(p@, body@))
        } else {
            None
        },
        _ => None,
    }
}

/// The verdict on a page's response, given what the page's pattern (if it
/// has one) gave on the body: `None` for a pattern that does not compile.
pub fn page_verdict(page: &HttpInner, response: &Result<String, String>, pattern_found: Option<bool>) -> (r: CheckResult)
    ensures
        outcome(r) == page_outcome(*page, *response, pattern_found),
{
    match response {
        Err(detail) => {
            Err(CheckError::new(String::from_str("Request failed"), detail.clone()))
        },
        Ok(body) => {
            if let Some(expected) = &page.contains {
                if !contains_text(body.as_str(), expected.as_str()) {
                    let mut long = String::from_str("Content mismatch: expected '");
                    long.append(expected.as_str());
                    long.append("', got '");
                    long.append(body.as_str());
                    long.append("'");
                    assert(long@ =~= content_mismatch_long(expected@, body@));
                    return Err(CheckError::new(String::from_str("Content mismatch"), long));
                }
            }
            if let Some(pattern) = &page.contains_regex {
                match pattern_found {
                    None => {
                        let mut long = String::from_str("Invalid pattern: '");
                        long.append(pattern.as_str());
                        long.append("'");
                        assert(long@ =~= invalid_pattern_long(pattern@));
                        return Err(CheckError::new(String::from_str("Invalid pattern"), long));
                    },
                    Some(false) => {
                        let mut long = String::from_str("Content mismatch: expected a match of '");
                        long.append(pattern.as_str());
                        long.append("', got '");
                        long.append(body.as_str());
                        long.append("'");
                        assert(long@ =~= pattern_mismatch_long(pattern@, body@));
                        return Err(CheckError::new(String::from_str("Content mismatch"), long));
                    },
                    Some(true) => {},
                }
            }
            Ok(())
        },
    }
}

/// The verdict on a page's response, with the page's pattern (if any)
/// searched for in the body.
pub fn check_page_response(page: &HttpInner, response: &Result<String, String>) -> (r: CheckResult)
    ensures
        outcome(r) == page_outcome(*page, *response, pattern_search(*page, *response)),
{
    let found = match (&page.contains_regex, response) {
        (Some(pattern), Ok(body)) => regex_search(pattern.as_str(), body.as_str()),
        _ => None,
    };
    page_verdict(page, response, found)
}

/// The URL of a page: `http://`, the address, then the page's path.
pub open spec fn page_url_text(ip: Ipv4Address, path: Seq<char>) -> Seq<char> {
    "http://"@ + ipv4_text(ip) + path
}

/// The URL at which a page is requested.
pub fn page_url(ip: &Ipv4Address, path: &str) -> (r: String)
    ensures
        r@ == page_url_text(*ip, path@),
{
    let mut url = String::from_str("http://");
    let addr = ip.to_text();
    url.append(addr.as_str());
    url.append(path);
    assert(url@ =~= page_url_text(*ip, path@));
    url
}

/// The long message of a command that exited with a nonzero code.
pub open spec fn command_failed_long(command: Seq<char>, code: int, output: Seq<char>) -> Seq<char> {
    "command '"@ + command + "' failed with nonzero exit code: '"@ + signed_dec(code)
        + "' (output: '"@ + output + "')"@
}

/// The verdict on a command run over SSH: success exactly when it exited
/// with code 0.
pub fn command_verdict(command: &str, exit_code: i32, output: &str) -> (r: CheckResult)
    ensures
        r is Ok <==> exit_code == 0,
        r matches Err(e) ==> e.short@ == "command failed"@ && e.long@ == command_failed_long(
            command@,
            exit_code as int,
            output@,
        ),
{
    if exit_code == 0 {
        return Ok(());
    }
    let mut long = String::from_str("command '");
    long.append(command);
    long.append("' failed with nonzero exit code: '");
    push_signed_decimal(&mut long, exit_code as i64);
    long.append("' (output: '");
    long.append(output);
    long.append("')");
    assert(long@ =~= command_failed_long(command@, exit_code as int, output@));
    Err(CheckError::new(String::from_str("command failed"), long))
}

/// The failure recorded when a probe step fails outside the checks above
/// (connecting, handshake, authentication): the detail goes to operators
/// only.
pub fn internal_failure(detail: String) -> (r: CheckError)
    ensures
        r.short@ == "Internal server error"@,
        r.long@ == detail@,
{
    CheckError::new(String::from_str("Internal server error"), detail)
}

/// What an HTTP probe does next: request a page (by its index), or report
/// the outcome.
#[derive(Debug)]
pub enum HttpStep {
    Request { page: usize },
    Done { result: CheckResult },
}

/// The first step of an HTTP probe: its first page, or success when it has
/// no page.
pub fn http_first(http: &Http) -> (r: HttpStep)
    ensures
        http.pages@.len() == 0 ==> (r matches HttpStep::Done { result } && result is Ok),
        http.pages@.len() > 0 ==> (r matches HttpStep::Request { page } && page == 0),
{
    if http.pages.len() == 0 {
        HttpStep::Done { result: Ok(()) }
    } else {
        HttpStep::Request { page: 0 }
    }
}

/// The step after page `page` got the verdict `verdict`: a failing page
/// ends the probe with its failure; a passing page leads to the next page,
/// or to success after the last one.
pub fn http_after(http: &Http, page: usize, verdict: CheckResult) -> (r: HttpStep)
    requires
        page < http.pages@.len(),
    ensures
        verdict is Err ==> (r matches HttpStep::Done { result } && result == verdict),
        verdict is Ok && page + 1 < http.pages@.len() ==> (r matches HttpStep::Request { page: p }
            && p == page + 1),
        verdict is Ok && page + 1 == http.pages@.len() ==> (r matches HttpStep::Done { result }
            && result is Ok),
{
    match verdict {
        Err(e) => HttpStep::Done { result: Err(e) },
        Ok(()) => {
            let n = http.pages.len();
            if page + 1 < n {
                HttpStep::Request { page: page + 1 }
            } else {
                HttpStep::Done { result: Ok(()) }
            }
        },
    }
}

} // verus!
