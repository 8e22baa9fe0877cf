//! Host functions the sandbox calls: console output and the shape of a
//! fetched response handed back to script code.
use vstd::prelude::*;

verus! {

/// The console method a script called.
#[derive(Clone, Copy, Debug, PartialEq, Eq, Structural)]
pub enum ConsoleLevel {
    Log,
    Info,
    Debug,
    Warn,
    Error,
}

pub open spec fn level_prefix(level: ConsoleLevel) -> Seq<char> {
    match level {
        ConsoleLevel::Log => "LOG: "@,
        ConsoleLevel::Info => "INFO: "@,
        ConsoleLevel::Debug => "DEBUG: "@,
        ConsoleLevel::Warn => "WARN: "@,
        ConsoleLevel::Error => "ERROR: "@,
    }
}

/// Each argument followed by one space.
pub open spec fn spaced(args: Seq<Seq<char>>) -> Seq<char>
    decreases args.len(),
{
    if args.len() == 0 {
        Seq::empty()
    } else {
        spaced(args.drop_last()) + args.last() + " "@
    }
}

pub open spec fn string_views(args: Seq<String>) -> Seq<Seq<char>> {
    args.map_values(|s: String| s@)
}

fn prefix_str(level: ConsoleLevel) -> (r: &'static str)
    ensures
        r@ == level_prefix(level),
{
    match level {
        ConsoleLevel::Log => "LOG: ",
        ConsoleLevel::Info => "INFO: ",
        ConsoleLevel::Debug => "DEBUG: ",
        ConsoleLevel::Warn => "WARN: ",
        ConsoleLevel::Error => "ERROR: ",
    }
}

/// The line printed for a console call: the level's prefix, then each
/// argument, already turned into text, followed by a space.
pub fn console_line(level: ConsoleLevel, args: &Vec<String>) -> (r: String)
    ensures
        r@ == level_prefix(level) + spaced(string_views(args@)),
{
    let mut out = String::from_str(prefix_str(level));
    let mut i: usize = 0;
    while i < args.len()
        invariant
            i <= args@.len(),
            out@ == level_prefix(level) + spaced(string_views(args@.take(i as int))),
        decreases args@.len() - i,
    {
        out.append(args[i].as_str());
        out.append(" ");
        proof {
            reveal_strlit(" ");
            let next = string_views(args@.take(i + 1));
            assert(next.drop_last() =~= string_views(args@.take(i as int)));
            assert(next.last() == args@[i as int]@);
        }
        i += 1;
    }
    proof {
        assert(args@.take(i as int) =~= args@);
    }
    out
}

/// The standard reason phrase of an HTTP status code.
pub uninterp spec fn reason_phrase(code: u16) -> Seq<char>;

/// Relies on reqwest's `StatusCode::from_u16` and `StatusCode::canonical_reason`:
/// the registered reason phrase of the code; empty where `from_u16` rejects the
/// code (below 100 or from 1000 on) or no phrase is registered.
#[verifier::external_body]
fn canonical_reason(code: u16) -> (r: String)
    ensures
        r@ == reason_phrase(code),
        code < 100 || code >= 1000 ==> r@.len() == 0,
{
    reqwest::StatusCode::from_u16(code).ok().and_then(|s| s.canonical_reason()).unwrap_or("").to_string()
}

/// A fetched response, in the shape script code receives it.
pub struct FetchResponse {
    pub body: Vec<u8>,
    pub body_used: bool,
    pub headers: Vec<(String, String)>,
    pub ok: bool,
    pub redirected: bool,
    pub status: u16,
    pub status_text: String,
    pub kind: String,
    pub url: String,
}

/// Whether a status code reports success (200 to 299).
pub open spec fn is_success(status: u16) -> bool {
    200 <= status < 300
}

impl FetchResponse {
    /// Builds the response handed to script code from what the host fetched.
    pub fn from_parts(status: u16, url: String, headers: Vec<(String, String)>, body: Vec<u8>) -> (r:
        FetchResponse)
        ensures
            r.status == status,
            r.ok == is_success(status),
            r.status_text@ == reason_phrase(status),
            r.url@ == url@,
            r.headers@ == headers@,
            r.body@ == body@,
            !r.body_used,
            !r.redirected,
            r.kind@ == "basic"@,
    {
        let status_text = canonical_reason(status);
        FetchResponse {
            body,
            body_used: false,
            headers,
            ok: 200 <= status && status < 300,
            redirected: false,
            status,
            status_text,
            kind: String::from_str("basic"),
            url,
        }
    }
}

} // verus!
