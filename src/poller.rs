use vstd::prelude::*;
use vstd::string::StringSliceAdditionalSpecFns;
use vstd::utf8::{encode_utf8, encode_utf8_decode_utf8};

use crate::error::TreasureDataError;

verus! {

/// How deeply a JSON body may nest arrays and objects before it is parsed: the parser below
/// descends one level of recursion for each, with no limit of its own.
pub const MAX_JSON_DEPTH: usize = 512;

/// Where a left-to-right reading of JSON text stands: how many arrays and objects are open,
/// the most that were ever open, and whether it is inside a string, just after a backslash.
pub struct JsonScan {
    pub depth: nat,
    pub deepest: nat,
    pub in_string: bool,
    pub escaped: bool,
}

/// One byte further. Brackets inside strings do not count; a backslash in a string escapes
/// the byte after it.
pub open spec fn scan_step(st: JsonScan, c: u8) -> JsonScan {
    if st.in_string {
        if st.escaped {
            JsonScan { escaped: false, ..st }
        } else if c == 0x5c {
            JsonScan { escaped: true, ..st }
        } else if c == 0x22 {
            JsonScan { in_string: false, ..st }
        } else {
            st
        }
    } else if c == 0x22 {
        JsonScan { in_string: true, ..st }
    } else if c == 0x5b || c == 0x7b {
        JsonScan {
            depth: st.depth + 1,
            deepest: if st.depth + 1 > st.deepest {
                st.depth + 1
            } else {
                st.deepest
            },
            ..st
        }
    } else if c == 0x5d || c == 0x7d {
        JsonScan { depth: if st.depth > 0 {
            (st.depth - 1) as nat
        } else {
            0
        }, ..st }
    } else {
        st
    }
}

pub open spec fn scan(b: Seq<u8>) -> JsonScan
    decreases b.len(),
{
    if b.len() == 0 {
        JsonScan { depth: 0, deepest: 0, in_string: false, escaped: false }
    } else {
        scan_step(scan(b.drop_last()), b.last())
    }
}

/// How deeply the JSON text `b` nests arrays and objects, strings aside.
pub open spec fn json_nesting(b: Seq<u8>) -> nat {
    scan(b).deepest
}

/// Whether `b` nests arrays and objects no deeper than `MAX_JSON_DEPTH`.
fn nesting_within_limit(b: &[u8]) -> (r: bool)
    ensures
        r == (json_nesting(b@) <= MAX_JSON_DEPTH),
{
    let mut depth: usize = 0;
    let mut deepest: usize = 0;
    let mut in_string = false;
    let mut escaped = false;
    let mut i: usize = 0;
    while i < b.len()
        invariant
            i <= b@.len(),
            scan(b@.subrange(0, i as int)) == (JsonScan {
                depth: depth as nat,
                deepest: deepest as nat,
                in_string,
                escaped,
            }),
            depth <= i,
            deepest <= i,
        decreases b@.len() - i,
    {
        proof {
            assert(b@.subrange(0, i as int + 1).drop_last() =~= b@.subrange(0, i as int));
        }
        let c = b[i];
        if in_string {
            if escaped {
                escaped = false;
            } else if c == 0x5c {
                escaped = true;
            } else if c == 0x22 {
                in_string = false;
            }
        } else if c == 0x22 {
            in_string = true;
        } else if c == 0x5b || c == 0x7b {
            depth = depth + 1;
            if depth > deepest {
                deepest = depth;
            }
        } else if c == 0x5d || c == 0x7d {
            if depth > 0 {
                depth = depth - 1;
            }
        }
        i = i + 1;
    }
    assert(b@.subrange(0, b@.len() as int) =~= b@);
    deepest <= MAX_JSON_DEPTH
}

/// What the JSON document `body` holds under `key`: `None` when it is not JSON, `Some(None)`
/// when it is not an object with a string under `key`, and the string otherwise.
pub uninterp spec fn json_string_member(body: Seq<char>, key: Seq<char>) -> Option<
    Option<Seq<char>>,
>;

/// Relies on rustc_serialize::json::Json::from_str, then Json::find and Json::as_string on
/// its result: parses `body` and reads the string member `key`. The parser recurses once per
/// array or object it is inside, so the nesting depth, strings aside, is bounded first.
#[verifier::external_body]
fn json_string_item(body: &str, key: &str) -> (r: Result<Option<String>, String>)
    requires
        json_nesting(body.spec_bytes()) <= MAX_JSON_DEPTH,
    ensures
        match r {
            Ok(Some(s)) => json_string_member(body@, key@) == Some(Some(s@)),
            Ok(None) => json_string_member(body@, key@) == Some(None::<Seq<char>>),
            Err(_) => json_string_member(body@, key@) is None,
        },
{
    match rustc_serialize::json::Json::from_str(body) {
        Ok(j) => Ok(j.find(key).and_then(|x| x.as_string()).map(|x| x.to_string())),
        Err(e) => Err(e.to_string()),
    }
}

/// Reads a job's status from the body of a status response: a JSON object whose `status`
/// member names it. A body that is not JSON is a parse error. A body that nests arrays and
/// objects deeper than `MAX_JSON_DEPTH`, or whose status is missing, not a string or unknown,
/// is a decode error, which no later poll will mend.
pub fn parse_job_status(body: &str) -> (r: Result<JobStatus, TreasureDataError>)
    ensures
        json_nesting(body.spec_bytes()) > MAX_JSON_DEPTH ==> (r matches Err(
            TreasureDataError::JsonDecodeError(_),
        )),
        json_nesting(body.spec_bytes()) <= MAX_JSON_DEPTH ==> match json_string_member(
            body@,
            "status"@,
        ) {
            None => (r matches Err(TreasureDataError::JsonParseError(_))),
            Some(None) => (r matches Err(TreasureDataError::JsonDecodeError(_))),
            Some(Some(t)) => match status_named(t) {
                Some(st) => r == Ok::<JobStatus, TreasureDataError>(st),
                None => (r matches Err(TreasureDataError::JsonDecodeError(m)) && m@ == t),
            },
        },
{
    if !nesting_within_limit(body.as_bytes()) {
        return Err(TreasureDataError::JsonDecodeError("arrays and objects nested too deeply".to_string()));
    }
    match json_string_item(body, "status") {
        Err(m) => Err(TreasureDataError::JsonParseError(m)),
        Ok(None) => Err(TreasureDataError::JsonDecodeError("status".to_string())),
        Ok(Some(s)) => JobStatus::from_str(s.as_str()),
    }
}

/// The state of a job on the service.
#[derive(Copy, Clone, Debug, PartialEq, Eq, Structural)]
pub enum JobStatus {
    Queued,
    Running,
    Success,
    Killed,
    Error,
}

impl JobStatus {
    /// Queued and running jobs may still change; the others are final.
    pub open spec fn spec_is_terminal(self) -> bool {
        !(self is Queued || self is Running)
    }

    #[verifier::when_used_as_spec(spec_is_terminal)]
    pub fn is_terminal(self) -> (r: bool)
        ensures
            r == self.spec_is_terminal(),
    {
        match self {
            JobStatus::Queued | JobStatus::Running => false,
            _ => true,
        }
    }

    /// The status that the service's name stands for; any other name is a decode error that
    /// carries it.
    pub fn from_str(s: &str) -> (r: Result<JobStatus, TreasureDataError>)
        ensures
            status_named(s@) matches Some(st) ==> r == Ok::<JobStatus, TreasureDataError>(st),
            status_named(s@) is None ==> (r matches Err(TreasureDataError::JsonDecodeError(m))
                && m@ == s@),
    {
        if str_eq(s, "queued") {
            Ok(JobStatus::Queued)
        } else if str_eq(s, "running") {
            Ok(JobStatus::Running)
        } else if str_eq(s, "success") {
            Ok(JobStatus::Success)
        } else if str_eq(s, "killed") {
            Ok(JobStatus::Killed)
        } else if str_eq(s, "error") {
            Ok(JobStatus::Error)
        } else {
            Err(TreasureDataError::JsonDecodeError(s.to_owned()))
        }
    }
}

/// The status that the name `s` stands for.
pub open spec fn status_named(s: Seq<char>) -> Option<JobStatus> {
    if s == "queued"@ {
        Some(JobStatus::Queued)
    } else if s == "running"@ {
        Some(JobStatus::Running)
    } else if s == "success"@ {
        Some(JobStatus::Success)
    } else if s == "killed"@ {
        Some(JobStatus::Killed)
    } else if s == "error"@ {
        Some(JobStatus::Error)
    } else {
        None
    }
}

/// Whether two strings hold the same characters.
pub fn str_eq(a: &str, b: &str) -> (r: bool)
    ensures
        r == (a@ == b@),
{
    let x = a.as_bytes();
    let y = b.as_bytes();
    proof {
        encode_utf8_decode_utf8(a@);
        encode_utf8_decode_utf8(b@);
        assert(x@ == encode_utf8(a@));
        assert(y@ == encode_utf8(b@));
    }
    if x.len() != y.len() {
        assert(x@ != y@);
        return false;
    }
    let mut i: usize = 0;
    while i < x.len()
        invariant
            x@ == encode_utf8(a@),
            y@ == encode_utf8(b@),
            x@.len() == y@.len(),
            i <= x@.len(),
            forall|j: int| 0 <= j < i ==> x@[j] == y@[j],
        decreases x@.len() - i,
    {
        if x[i] != y[i] {
            assert(x@ != y@);
            return false;
        }
        i = i + 1;
    }
    assert(x@ =~= y@);
    true
}

/// What a status poll leads to: `None` to sleep and poll again, or the result that waiting
/// ends with. A final status ends it, and so does a status that could not be decoded; any
/// other failure is taken as passing and polled again.
pub fn wait_step(poll: Result<JobStatus, TreasureDataError>) -> (r: Option<
    Result<JobStatus, TreasureDataError>,
>)
    ensures
        r == wait_outcome(poll),
{
    match poll {
        Ok(status) => {
            if status.is_terminal() {
                Some(Ok(status))
            } else {
                None
            }
        },
        Err(TreasureDataError::JsonDecodeError(m)) => Some(Err(TreasureDataError::JsonDecodeError(m))),
        Err(_) => None,
    }
}

pub open spec fn wait_outcome(poll: Result<JobStatus, TreasureDataError>) -> Option<
    Result<JobStatus, TreasureDataError>,
> {
    match poll {
        Ok(status) => if status.spec_is_terminal() {
            Some(Ok(status))
        } else {
            None
        },
        Err(TreasureDataError::JsonDecodeError(m)) => Some(poll),
        Err(_) => None,
    }
}

} // verus!
