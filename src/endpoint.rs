use vstd::prelude::*;
use vstd::string::StringExecFns;

verus! {

/// Whether the regular expression `pattern` matches somewhere in `s`.
pub uninterp spec fn regex_matches(pattern: Seq<char>, s: Seq<char>) -> bool;

/// Relies on regex::Regex::new and Regex::is_match: compiles `pattern`, or says why it cannot,
/// and tells whether it matches in `s`; the answer depends on the two texts alone.
/// `Regex::new` fails only on a syntax error or a pattern over its size limit, and the
/// protocol pattern is neither.
#[verifier::external_body]
fn regex_is_match(pattern: &str, s: &str) -> (r: Result<bool, String>)
    ensures
        r matches Ok(m) ==> m == regex_matches(pattern@, s@),
        pattern@ == PROTOCOL_PATTERN@ ==> r is Ok && r->Ok_0 == names_protocol(s@),
{
    regex::Regex::new(pattern).map(|re| re.is_match(s)).map_err(|e| e.to_string())
}

/// Whether `s` starts with `http://` or `https://`: what the protocol pattern matches.
pub open spec fn names_protocol(s: Seq<char>) -> bool {
    (s.len() >= 7 && s.subrange(0, 7) == "http://"@) || (s.len() >= 8 && s.subrange(0, 8)
        == "https://"@)
}

/// The pattern of an endpoint that already names its protocol.
pub const PROTOCOL_PATTERN: &'static str = "^(http://|https://)";

/// An endpoint with its protocol: as given when it starts with `http://` or `https://`,
/// otherwise behind `https://`.
pub fn endpoint_with_protocol(endpoint: &str) -> (r: String)
    ensures
        r@ == if names_protocol(endpoint@) {
            endpoint@
        } else {
            "https://"@ + endpoint@
        },
{
    let has_protocol = match regex_is_match(PROTOCOL_PATTERN, endpoint) {
        Ok(m) => m,
        Err(_) => false,
    };
    with_protocol(endpoint, has_protocol)
}

/// `endpoint` as given when it names its protocol, otherwise behind `https://`.
pub fn with_protocol(endpoint: &str, has_protocol: bool) -> (r: String)
    ensures
        r@ == if has_protocol {
            endpoint@
        } else {
            "https://"@ + endpoint@
        },
{
    if has_protocol {
        String::from_str(endpoint)
    } else {
        let mut out = String::from_str("https://");
        out.append(endpoint);
        out
    }
}

} // verus!
