//! Errors of the compositor-facing helpers (`hyprctl`, `grim`, `wl-copy`)
//! and the decisions taken on what those processes returned.
use vstd::prelude::*;
use crate::text::{dec_text, push_decimal};

verus! {

/// Largest PNG a capture may return.
pub const MAX_CAPTURE_BYTES: usize = 48 * 1024 * 1024;

/// `hyprctl` (and `wl-copy`) time bound, in seconds.
pub const HYPRCTL_TIMEOUT_SECS: u64 = 5;

/// `grim` time bound, in seconds.
pub const GRIM_TIMEOUT_SECS: u64 = 10;

#[derive(Debug)]
pub enum BackendError {
    Missing(&'static str),
    Failed(String),
    Timeout(&'static str),
    TooLarge(usize),
}

/// The text a backend error is shown as.
pub open spec fn error_message(e: BackendError) -> Seq<char> {
    match e {
        BackendError::Missing(what) => "missing dependency or session: "@ + what@,
        BackendError::Failed(msg) => msg@,
        BackendError::Timeout(what) => what@ + " timed out"@,
        BackendError::TooLarge(n) => "capture exceeded "@ + dec_text(n as nat) + " byte limit"@,
    }
}

/// The machine-readable code a tool error carries for a backend error.
pub open spec fn error_code_text(e: BackendError) -> Seq<char> {
    match e {
        BackendError::Missing(_) => "MISSING_DEPENDENCY"@,
        BackendError::Timeout(_) => "BACKEND_TIMEOUT"@,
        BackendError::TooLarge(_) => "CAPTURE_TOO_LARGE"@,
        BackendError::Failed(_) => "BACKEND_FAILED"@,
    }
}

impl BackendError {
    /// The text the error is shown as.
    pub fn message(&self) -> (r: String)
        ensures
            r@ == error_message(*self),
    {
        match self {
            BackendError::Missing(what) => {
                let mut r = String::from_str("missing dependency or session: ");
                r.append(what);
                r
            },
            BackendError::Failed(msg) => msg.clone(),
            BackendError::Timeout(what) => {
                let mut r = String::from_str(what);
                r.append(" timed out");
                r
            },
            BackendError::TooLarge(n) => {
                let mut r = String::from_str("capture exceeded ");
                push_decimal(&mut r, *n as u64);
                r.append(" byte limit");
                r
            },
        }
    }

    /// The tool error code for this error.
    pub fn code(&self) -> (r: &'static str)
        ensures
            r@ == error_code_text(*self),
    {
        match self {
            BackendError::Missing(_) => "MISSING_DEPENDENCY",
            BackendError::Timeout(_) => "BACKEND_TIMEOUT",
            BackendError::TooLarge(_) => "CAPTURE_TOO_LARGE",
            BackendError::Failed(_) => "BACKEND_FAILED",
        }
    }
}

/// The error for a helper process that could not be started: missing when
/// the executable was not found, a failure naming the cause otherwise.
pub fn spawn_error(what: &'static str, not_found: bool, detail: &str) -> (e: BackendError)
    ensures
        not_found ==> e == BackendError::Missing(what),
        !not_found ==> (e matches BackendError::Failed(m) && m@ == what@ + " spawn: "@ + detail@),
{
    if not_found {
        BackendError::Missing(what)
    } else {
        let mut m = String::from_str(what);
        m.append(" spawn: ");
        m.append(detail);
        BackendError::Failed(m)
    }
}

/// How a helper process that was started ended.
pub enum ProcessOutcome {
    /// It did not finish within its time bound.
    TimedOut,
    /// Waiting for it failed; the cause's text.
    WaitFailed(String),
    /// It exited.  `status` is the exit status's text and `stderr` the
    /// error output decoded as UTF-8 (invalid sequences replaced).
    Exited { success: bool, status: String, stdout: Vec<u8>, stderr: String },
}

/// A character with the Unicode `White_Space` property (as
/// `char::is_whitespace` defines it).
pub open spec fn is_white_space(c: char) -> bool {
    let u = c as u32;
    ||| 0x09 <= u <= 0x0D
    ||| u == 0x20
    ||| u == 0x85
    ||| u == 0xA0
    ||| u == 0x1680
    ||| 0x2000 <= u <= 0x200A
    ||| u == 0x2028
    ||| u == 0x2029
    ||| u == 0x202F
    ||| u == 0x205F
    ||| u == 0x3000
}

/// The text with its leading whitespace removed.
pub open spec fn trim_start(s: Seq<char>) -> Seq<char>
    decreases s.len(),
{
    if s.len() > 0 && is_white_space(s[0]) {
        trim_start(s.drop_first())
    } else {
        s
    }
}

/// The text with its trailing whitespace removed.
pub open spec fn trim_end(s: Seq<char>) -> Seq<char>
    decreases s.len(),
{
    if s.len() > 0 && is_white_space(s.last()) {
        trim_end(s.drop_last())
    } else {
        s
    }
}

/// The text without leading and trailing whitespace.
pub open spec fn trimmed(s: Seq<char>) -> Seq<char> {
    trim_end(trim_start(s))
}

fn is_white_space_char(c: char) -> (r: bool)
    ensures
        r == is_white_space(c),
{
    let u = c as u32;
    (0x09 <= u && u <= 0x0D) || u == 0x20 || u == 0x85 || u == 0xA0 || u == 0x1680 || (0x2000 <= u
        && u <= 0x200A) || u == 0x2028 || u == 0x2029 || u == 0x202F || u == 0x205F || u == 0x3000
}

/// Leading whitespace does not change what `trim_start` leaves.
proof fn lemma_trim_start_skip(s: Seq<char>, i: int)
    requires
        0 <= i <= s.len(),
        forall|k: int| 0 <= k < i ==> is_white_space(s[k]),
    ensures
        trim_start(s) == trim_start(s.subrange(i, s.len() as int)),
    decreases i,
{
    if i > 0 {
        assert(s.drop_first() =~= s.subrange(1, s.len() as int));
        let t = s.drop_first();
        assert forall|k: int| 0 <= k < i - 1 implies is_white_space(t[k]) by {
            assert(t[k] == s[k + 1]);
        }
        lemma_trim_start_skip(t, i - 1);
        assert(t.subrange(i - 1, t.len() as int) =~= s.subrange(i, s.len() as int));
    } else {
        assert(s.subrange(0, s.len() as int) =~= s);
    }
}

/// Trailing whitespace does not change what `trim_end` leaves.
proof fn lemma_trim_end_skip(s: Seq<char>, j: int)
    requires
        0 <= j <= s.len(),
        forall|k: int| j <= k < s.len() ==> is_white_space(s[k]),
    ensures
        trim_end(s) == trim_end(s.subrange(0, j)),
    decreases s.len() - j,
{
    if j < s.len() {
        let t = s.drop_last();
        assert(is_white_space(s.last()));
        assert forall|k: int| j <= k < t.len() implies is_white_space(t[k]) by {
            assert(t[k] == s[k]);
        }
        lemma_trim_end_skip(t, j);
        assert(t.subrange(0, j) =~= s.subrange(0, j));
    } else {
        assert(s.subrange(0, j) =~= s);
    }
}

/// The text without leading and trailing whitespace (as `str::trim`).
fn trim_text(s: &str) -> (r: String)
    ensures
        r@ == trimmed(s@),
{
    let n = s.unicode_len();
    let mut i: usize = 0;
    while i < n && is_white_space_char(s.get_char(i))
        invariant
            0 <= i <= n,
            n == s@.len(),
            forall|k: int| 0 <= k < i ==> is_white_space(s@[k]),
        decreases n - i,
    {
        i = i + 1;
    }
    let mut j: usize = n;
    while j > i && is_white_space_char(s.get_char(j - 1))
        invariant
            i <= j <= n,
            n == s@.len(),
            forall|k: int| j <= k < n ==> is_white_space(s@[k]),
        decreases j - i,
    {
        j = j - 1;
    }
    proof {
        lemma_trim_start_skip(s@, i as int);
        let t = s@.subrange(i as int, n as int);
        if i < n {
            assert(!is_white_space(t[0]));
        }
        assert(trim_start(t) == t);
        assert forall|k: int| j - i <= k < t.len() implies is_white_space(t[k]) by {
            assert(t[k] == s@[k + i]);
        }
        lemma_trim_end_skip(t, j - i);
        let u = t.subrange(0, j - i);
        if j > i {
            assert(u.last() == s@[j - 1]);
        }
        assert(trim_end(u) == u);
        assert(u =~= s@.subrange(i as int, j as int));
    }
    s.substring_char(i, j).to_string()
}

/// Output of a helper run, or the error it ended with: a timeout, a failure
/// to wait, a non-zero exit (with the trimmed error output), or output over
/// the capture limit.
pub fn run_result(what: &'static str, outcome: ProcessOutcome) -> (r: Result<Vec<u8>, BackendError>)
    ensures
        match outcome {
            ProcessOutcome::TimedOut => r == Err::<Vec<u8>, BackendError>(BackendError::Timeout(what)),
            ProcessOutcome::WaitFailed(e) => r matches Err(BackendError::Failed(m)) && m@ == what@
                + ": "@ + e@,
            ProcessOutcome::Exited { success, status, stdout, stderr } => if !success {
                r matches Err(BackendError::Failed(m)) && m@ == what@ + " exited "@ + status@ + ": "@
                    + trimmed(stderr@)
            } else if stdout@.len() > MAX_CAPTURE_BYTES {
                r == Err::<Vec<u8>, BackendError>(BackendError::TooLarge(MAX_CAPTURE_BYTES))
            } else {
                r matches Ok(out) && out@ == stdout@
            },
        },
{
    match outcome {
        ProcessOutcome::TimedOut => Err(BackendError::Timeout(what)),
        ProcessOutcome::WaitFailed(e) => {
            let mut m = String::from_str(what);
            m.append(": ");
            m.append(e.as_str());
            Err(BackendError::Failed(m))
        },
        ProcessOutcome::Exited { success, status, stdout, stderr } => {
            if !success {
                let mut m = String::from_str(what);
                m.append(" exited ");
                m.append(status.as_str());
                m.append(": ");
                m.append(trim_text(stderr.as_str()).as_str());
                Err(BackendError::Failed(m))
            } else if stdout.len() > MAX_CAPTURE_BYTES {
                Err(BackendError::TooLarge(MAX_CAPTURE_BYTES))
            } else {
                Ok(stdout)
            }
        },
    }
}

/// How waiting for `wl-copy` ended.
pub enum WaitOutcome {
    TimedOut,
    /// Waiting failed; the cause's text.
    Failed(String),
    /// It exited; `status` is the exit status's text.
    Exited { success: bool, status: String },
}

/// Result of replacing the clipboard: a failed write of the text comes
/// first, then the way `wl-copy` ended.
pub fn clipboard_result(write_error: Option<String>, wait: WaitOutcome) -> (r: Result<(), BackendError>)
    ensures
        match write_error {
            Some(e) => r matches Err(BackendError::Failed(m)) && m@ == "wl-copy stdin: "@ + e@,
            None => match wait {
                WaitOutcome::TimedOut => r == Err::<(), BackendError>(BackendError::Timeout("wl-copy")),
                WaitOutcome::Failed(e) => r matches Err(BackendError::Failed(m)) && m@ == "wl-copy: "@
                    + e@,
                WaitOutcome::Exited { success, status } => if success {
                    r == Ok::<(), BackendError>(())
                } else {
                    r matches Err(BackendError::Failed(m)) && m@ == "wl-copy exited "@ + status@
                },
            },
        },
{
    if let Some(e) = write_error {
        let mut m = String::from_str("wl-copy stdin: ");
        m.append(e.as_str());
        return Err(BackendError::Failed(m));
    }
    match wait {
        WaitOutcome::TimedOut => Err(BackendError::Timeout("wl-copy")),
        WaitOutcome::Failed(e) => {
            let mut m = String::from_str("wl-copy: ");
            m.append(e.as_str());
            Err(BackendError::Failed(m))
        },
        WaitOutcome::Exited { success, status } => {
            if success {
                Ok(())
            } else {
                let mut m = String::from_str("wl-copy exited ");
                m.append(status.as_str());
                Err(BackendError::Failed(m))
            }
        },
    }
}

} // verus!

verus! {

#[verifier::external_type_specification]
#[verifier::external_body]
pub struct ExJsonError(serde_json::Error);

/// Whether `serde_json` accepts the bytes as one JSON document.
pub uninterp spec fn json_accepts(bytes: Seq<u8>) -> bool;

/// The integer value of the top-level field `key` of the JSON document in
/// `bytes`: `None` when the document is no object, has no such field, or the
/// field is no integer that fits in `i64`.
pub uninterp spec fn json_int_field(bytes: Seq<u8>, key: Seq<char>) -> Option<i64>;

/// Parses the bytes with `serde_json::from_slice` into a `serde_json::Value`
/// and reads the field `key` of it with `Value::get` and `Value::as_i64`.
/// Parsing succeeds exactly on the documents `json_accepts` names, and the
/// field's value, a function of the bytes and the key, is named by
/// `json_int_field`.
#[verifier::external_body]
fn parse_int_field(bytes: &[u8], key: &str) -> (r: Result<Option<i64>, serde_json::Error>)
    ensures
        r is Ok <==> json_accepts(bytes@),
        r matches Ok(f) ==> f == json_int_field(bytes@, key@),
{
    serde_json::from_slice::<serde_json::Value>(bytes).map(|v| v.get(key).and_then(serde_json::Value::as_i64))
}

/// ASCII whitespace as `u8::is_ascii_whitespace` defines it.
pub open spec fn is_ascii_whitespace(b: u8) -> bool {
    b == 0x20 || b == 0x09 || b == 0x0A || b == 0x0C || b == 0x0D
}

pub open spec fn all_whitespace(s: Seq<u8>) -> bool {
    forall|i: int| 0 <= i < s.len() ==> is_ascii_whitespace(#[trigger] s[i])
}

/// The compositor id of the monitor that owns the focused window, read from
/// `hyprctl -j activewindow` output: empty output means nothing is focused;
/// output that is no JSON is an error; otherwise the integer `monitor`
/// field, when there is one.
pub fn active_window_monitor(out: &[u8]) -> (r: Result<Option<i64>, BackendError>)
    ensures
        all_whitespace(out@) ==> r == Ok::<Option<i64>, BackendError>(None),
        !all_whitespace(out@) && !json_accepts(out@) ==> (r matches Err(BackendError::Failed(m))
            && m@.len() >= 20 && m@.subrange(0, 20) == "activewindow parse: "@),
        !all_whitespace(out@) && json_accepts(out@) ==> r == Ok::<Option<i64>, BackendError>(
            json_int_field(out@, "monitor"@),
        ),
{
    let mut i: usize = 0;
    let mut blank = true;
    while i < out.len()
        invariant
            0 <= i <= out@.len(),
            blank == all_whitespace(out@.subrange(0, i as int)),
        decreases out@.len() - i,
    {
        let b = out[i];
        let ws = b == 0x20 || b == 0x09 || b == 0x0A || b == 0x0C || b == 0x0D;
        assert(out@.subrange(0, i + 1) =~= out@.subrange(0, i as int).push(b));
        if !ws {
            assert(!is_ascii_whitespace(out@.subrange(0, i + 1)[i as int]));
        }
        blank = blank && ws;
        i = i + 1;
    }
    assert(out@.subrange(0, out@.len() as int) =~= out@);
    if blank {
        return Ok(None);
    }
    let field = parse_int_field(out, "monitor");
    match field {
        Err(e) => {
            let mut m = String::from_str("activewindow parse: ");
            proof {
                reveal_strlit("activewindow parse: ");
            }
            let text = e.to_string();
            let ghost prefix = m@;
            m.append(text.as_str());
            assert(m@.subrange(0, 20) =~= prefix);
            Err(BackendError::Failed(m))
        },
        Ok(f) => Ok(f),
    }
}

} // verus!
