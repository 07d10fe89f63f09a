//! The endpoints of an OpenAI-compatible API and the framing of its
//! server-sent event stream.

use vstd::prelude::*;
use crate::text::{chars_of, contains, contains_chars, string_from_range, trim, trim_string};

verus! {

/// Path of the chat completions endpoint.
pub open spec fn completions_path() -> Seq<char> {
    "/chat/completions"@
}

/// `s` without its trailing slashes.
pub open spec fn without_trailing_slashes(s: Seq<char>) -> Seq<char>
    decreases s.len(),
{
    if s.len() > 0 && s.last() == '/' {
        without_trailing_slashes(s.drop_last())
    } else {
        s
    }
}

/// The chat completions URL of a base URL: the base itself when it already
/// holds the endpoint's path, else the base (trimmed, without trailing
/// slashes) followed by the path.
pub open spec fn spec_completions_url(base: Seq<char>) -> Seq<char> {
    let b = trim(base);
    if contains(b, completions_path()) {
        b
    } else {
        without_trailing_slashes(b) + completions_path()
    }
}

/// Index just past the last character of `v[..n]` that is not a slash.
fn strip_slashes(v: &Vec<char>, n: usize) -> (k: usize)
    requires
        n <= v@.len(),
    ensures
        k <= n,
        v@.subrange(0, k as int) == without_trailing_slashes(v@.subrange(0, n as int)),
    decreases n,
{
    if n > 0 && v[n - 1] == '/' {
        assert(v@.subrange(0, n as int).drop_last() =~= v@.subrange(0, n - 1));
        strip_slashes(v, n - 1)
    } else {
        n
    }
}

/// The chat completions URL for the base URL in the settings.
pub fn completions_url(base: &str) -> (r: String)
    ensures
        r@ == spec_completions_url(base@),
{
    let b = trim_string(base);
    let v = chars_of(b.as_str());
    if contains_chars(&v, &chars_of("/chat/completions")) {
        return b;
    }
    let k = strip_slashes(&v, v.len());
    assert(v@.subrange(0, v@.len() as int) =~= v@);
    let mut r = string_from_range(&v, 0, k);
    r.append("/chat/completions");
    r
}

/// The models URL of a base URL: the base (trimmed, without trailing
/// slashes) followed by `/models`.
pub fn models_url(base: &str) -> (r: String)
    ensures
        r@ == without_trailing_slashes(trim(base@)) + "/models"@,
{
    let b = trim_string(base);
    let v = chars_of(b.as_str());
    let k = strip_slashes(&v, v.len());
    assert(v@.subrange(0, v@.len() as int) =~= v@);
    let mut r = string_from_range(&v, 0, k);
    r.append("/models");
    r
}

/// What one line of the event stream carries.
#[derive(Debug, PartialEq, Eq)]
pub enum SseLine {
    /// The JSON of an event.
    Data(String),
    /// The end of the stream (`data: [DONE]`).
    Done,
    /// A line that carries nothing (blank, a comment or another field).
    Skip,
}

/// How a line of the stream is read: trimmed, a line starting with `data:`
/// carries what follows (trimmed), `[DONE]` ending the stream.
pub open spec fn spec_sse_line(line: Seq<char>) -> (bool, bool, Seq<char>) {
    let t = trim(line);
    if t.len() >= 5 && t.subrange(0, 5) == "data:"@ {
        let payload = trim(t.subrange(5, t.len() as int));
        if payload == "[DONE]"@ {
            (true, true, payload)
        } else {
            (true, false, payload)
        }
    } else {
        (false, false, seq![])
    }
}

/// Reads one line of the event stream.
pub fn sse_line(line: &str) -> (r: SseLine)
    ensures
        ({
            let (data, done, payload) = spec_sse_line(line@);
            &&& !data ==> r == SseLine::Skip
            &&& data && done ==> r == SseLine::Done
            &&& data && !done ==> (r matches SseLine::Data(p) && p@ == payload)
        }),
{
    proof {
        reveal_strlit("data:");
        reveal_strlit("[DONE]");
    }
    let t = trim_string(line);
    let v = chars_of(t.as_str());
    if v.len() < 5 || !(v[0] == 'd' && v[1] == 'a' && v[2] == 't' && v[3] == 'a' && v[4] == ':') {
        proof {
            if v@.len() >= 5 && v@.subrange(0, 5) == "data:"@ {
                let p = v@.subrange(0, 5);
                assert(p[0] == v@[0] && p[1] == v@[1] && p[2] == v@[2] && p[3] == v@[3] && p[4]
                    == v@[4]);
            }
        }
        return SseLine::Skip;
    }
    assert(v@.subrange(0, 5) =~= "data:"@);
    let rest = string_from_range(&v, 5, v.len());
    let payload = trim_string(rest.as_str());
    if payload == "[DONE]".to_owned() {
        SseLine::Done
    } else {
        SseLine::Data(payload)
    }
}

} // verus!
