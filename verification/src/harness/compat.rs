//! Version compatibility of generated hooks.
//!
//! Generated hook scripts begin with a compatibility guard naming the ctx
//! version that generated them. A *bare* version there is a floor ("this
//! binary must be at least as new as the templates"), deliberately not
//! semver caret semantics; explicit requirement expressions (`^0.2`,
//! `>=0.2, <0.4`, `0.2.*`) are semver requirements.

use vstd::prelude::*;

use crate::error::CtxError;
use crate::text::{
    chars_of, is_whitespace, is_ws, push_chars, push_str, slice_range, string_from, trim, trim_str,
};

verus! {

/// Whether `c` is a requirement operator character or whitespace.
pub open spec fn operator_char(c: char) -> bool {
    c == '^' || c == '~' || c == '>' || c == '<' || c == '=' || c == '*' || c == ',' || is_ws(c)
}

/// Whether a requirement text holds an explicit operator (and so is a full
/// semver requirement rather than a bare floor).
pub open spec fn has_operator_spec(require: Seq<char>) -> bool {
    exists|i: int| 0 <= i < require.len() && operator_char(#[trigger] require[i])
}

/// True if `require` contains an explicit requirement operator.
pub fn has_operator(require: &str) -> (r: bool)
    ensures
        r == has_operator_spec(require@),
{
    let cs = chars_of(require);
    let mut i: usize = 0;
    while i < cs.len()
        invariant
            i <= cs@.len(),
            cs@ == require@,
            forall|k: int| 0 <= k < i ==> !operator_char(#[trigger] cs@[k]),
        decreases cs@.len() - i,
    {
        let c = cs[i];
        if c == '^' || c == '~' || c == '>' || c == '<' || c == '=' || c == '*' || c == ','
            || is_whitespace(c) {
            assert(operator_char(cs@[i as int]));
            return true;
        }
        i = i + 1;
    }
    false
}

/// Position of the first `-` or `+` (where a pre-release or build suffix
/// starts), or the length when there is none.
pub open spec fn suffix_start(s: Seq<char>) -> int
    decreases s.len(),
{
    if s.len() == 0 {
        0
    } else if s[0] == '-' || s[0] == '+' {
        0
    } else {
        1 + suffix_start(s.drop_first())
    }
}

/// Number of `.` in a text.
pub open spec fn dot_count(s: Seq<char>) -> nat
    decreases s.len(),
{
    if s.len() == 0 {
        0
    } else {
        dot_count(s.drop_last()) + if s.last() == '.' {
            1nat
        } else {
            0nat
        }
    }
}

/// A bare version zero-padded to three numeric components, keeping any
/// pre-release or build suffix (`0.1` becomes `0.1.0`).
pub open spec fn padded(require: Seq<char>) -> Seq<char> {
    let i = suffix_start(require);
    let core = require.take(i);
    let suffix = require.skip(i);
    if dot_count(core) == 0 {
        core + ".0.0"@ + suffix
    } else if dot_count(core) == 1 {
        core + ".0"@ + suffix
    } else {
        require
    }
}

proof fn lemma_suffix_start_bounds(s: Seq<char>)
    ensures
        0 <= suffix_start(s) <= s.len(),
    decreases s.len(),
{
    if s.len() > 0 && !(s[0] == '-' || s[0] == '+') {
        lemma_suffix_start_bounds(s.drop_first());
    }
}

/// Zero-pad a bare version to three components (`"0.1"` becomes `"0.1.0"`).
pub fn pad_bare_version(require: &str) -> (r: String)
    ensures
        r@ == padded(require@),
{
    let cs = chars_of(require);
    let mut idx: usize = 0;
    assert(cs@.skip(0) =~= cs@);
    while idx < cs.len() && cs[idx] != '-' && cs[idx] != '+'
        invariant
            idx <= cs@.len(),
            cs@ == require@,
            suffix_start(require@) == idx + suffix_start(require@.skip(idx as int)),
        decreases cs@.len() - idx,
    {
        assert(require@.skip(idx as int).drop_first() =~= require@.skip(idx + 1));
        idx = idx + 1;
    }
    proof {
        lemma_suffix_start_bounds(require@);
        if idx < cs@.len() {
            assert(require@.skip(idx as int)[0] == cs@[idx as int]);
        } else {
            assert(require@.skip(idx as int).len() == 0);
        }
    }
    let core = slice_range(cs.as_slice(), 0, idx);
    let suffix = slice_range(cs.as_slice(), idx, cs.len());
    assert(core@ =~= require@.take(idx as int));
    assert(suffix@ =~= require@.skip(idx as int));
    let mut dots: usize = 0;
    let mut k: usize = 0;
    while k < core.len()
        invariant
            k <= core@.len(),
            dots == dot_count(core@.take(k as int)),
            dots <= k,
        decreases core@.len() - k,
    {
        assert(core@.take(k + 1).drop_last() =~= core@.take(k as int));
        if core[k] == '.' {
            dots = dots + 1;
        }
        k = k + 1;
    }
    assert(core@.take(k as int) =~= core@);
    if dots == 0 {
        let mut out = core;
        let pad = vec!['.', '0', '.', '0'];
        proof {
            reveal_strlit(".0.0");
            assert(pad@ =~= ".0.0"@);
        }
        let s = string_from(out.as_slice());
        let mut s = s;
        push_chars(&mut s, pad.as_slice());
        push_chars(&mut s, suffix.as_slice());
        s
    } else if dots == 1 {
        let pad = vec!['.', '0'];
        proof {
            reveal_strlit(".0");
            assert(pad@ =~= ".0"@);
        }
        let mut s = string_from(core.as_slice());
        push_chars(&mut s, pad.as_slice());
        push_chars(&mut s, suffix.as_slice());
        s
    } else {
        string_from(cs.as_slice())
    }
}


// ---------------------------------------------------------------------------
// semver
// ---------------------------------------------------------------------------

/// The `Display` text of the error `semver::Version::parse` gives on `s`
/// (`None` when `s` parses).
pub uninterp spec fn version_parse_error(s: Seq<char>) -> Option<Seq<char>>;

/// Whether the version parsed from `a` is at least the version parsed from
/// `b`, in `semver::Version`'s order.
pub uninterp spec fn version_at_least(a: Seq<char>, b: Seq<char>) -> bool;

/// The `Display` text of the error `semver::VersionReq::parse` gives on `s`
/// (`None` when `s` parses).
pub uninterp spec fn req_parse_error(s: Seq<char>) -> Option<Seq<char>>;

/// Whether the requirement parsed from `req` matches the version parsed
/// from `version` (`semver::VersionReq::matches`).
pub uninterp spec fn req_matches(req: Seq<char>, version: Seq<char>) -> bool;

/// `semver::Version::parse`: `None` when `s` is a version, else the error's
/// text. Which texts parse, and the message, are left to the name.
#[verifier::external_body]
fn semver_parse_error(s: &str) -> (r: Option<String>)
    ensures
        match r {
            Some(e) => version_parse_error(s@) == Some(e@),
            None => version_parse_error(s@) is None,
        },
{
    match semver::Version::parse(s) {
        Ok(_) => None,
        Err(e) => Some(e.to_string()),
    }
}

/// `semver::Version`'s `>=` on the versions parsed from `a` and `b` (both
/// parse); the order itself is left to the name.
#[verifier::external_body]
fn semver_at_least(a: &str, b: &str) -> (r: bool)
    requires
        version_parse_error(a@) is None,
        version_parse_error(b@) is None,
    ensures
        r == version_at_least(a@, b@),
{
    semver::Version::parse(a).unwrap() >= semver::Version::parse(b).unwrap()
}

/// `semver::VersionReq::parse`: `None` when `s` is a requirement, else the
/// error's text. Which texts parse, and the message, are left to the name.
#[verifier::external_body]
fn semver_req_parse_error(s: &str) -> (r: Option<String>)
    ensures
        match r {
            Some(e) => req_parse_error(s@) == Some(e@),
            None => req_parse_error(s@) is None,
        },
{
    match semver::VersionReq::parse(s) {
        Ok(_) => None,
        Err(e) => Some(e.to_string()),
    }
}

/// `semver::VersionReq::matches` on the requirement parsed from `req` and
/// the version parsed from `version` (both parse); what matches is left to
/// the name.
#[verifier::external_body]
fn semver_req_matches(req: &str, version: &str) -> (r: bool)
    requires
        req_parse_error(req@) is None,
        version_parse_error(version@) is None,
    ensures
        r == req_matches(req@, version@),
{
    semver::VersionReq::parse(req).unwrap().matches(&semver::Version::parse(version).unwrap())
}

/// A semantic version, held as the text it was parsed from.
#[derive(Debug)]
pub struct SemVersion {
    text: String,
}

impl SemVersion {
    /// The text the version was parsed from.
    pub closed spec fn source(self) -> Seq<char> {
        self.text@
    }

    /// The text always parses as a version.
    #[verifier::type_invariant]
    closed spec fn parses(self) -> bool {
        version_parse_error(self.text@) is None
    }

    /// Parse a version (`MAJOR.MINOR.PATCH[-PRE][+BUILD]`); the error
    /// carries the parser's message.
    pub fn parse(s: &str) -> (r: Result<SemVersion, CtxError>)
        ensures
            match r {
                Ok(v) => version_parse_error(s@) is None && v.source() == s@,
                Err(e) => version_parse_error(s@) == Some(e.text()),
            },
    {
        match semver_parse_error(s) {
            Some(e) => Err(CtxError::Other(e)),
            None => Ok(SemVersion { text: s.to_string() }),
        }
    }

    /// The text the version was parsed from.
    pub fn as_str(&self) -> (r: &str)
        ensures
            r@ == self.source(),
    {
        self.text.as_str()
    }
}

/// The message for an empty requirement.
pub open spec fn empty_require_message() -> Seq<char> {
    "--require needs a version (e.g. \"0.2\") or requirement (e.g. \">=0.2\")"@
}

/// Whether the version parsed from `current` satisfies `require`: bare
/// versions are floors (`current >= require`, zero-padded), expressions
/// with operators are semver requirements; an empty or unparseable
/// requirement is an error with the given message.
pub open spec fn satisfies_result(current: Seq<char>, require: Seq<char>) -> Result<bool, Seq<char>> {
    let t = trim(require);
    if t.len() == 0 {
        Err(empty_require_message())
    } else if has_operator_spec(t) {
        match req_parse_error(t) {
            Some(m) => Err("invalid version requirement '"@ + t + "': "@ + m),
            None => Ok(req_matches(t, current)),
        }
    } else {
        let p = padded(t);
        match version_parse_error(p) {
            Some(m) => Err("invalid version '"@ + t + "': "@ + m),
            None => Ok(version_at_least(current, p)),
        }
    }
}

/// Does `current` satisfy the requirement string `require`?
///
/// Bare versions are floors (`current >= require`); expressions with
/// operators are semver requirements. Unparseable input is an error.
pub fn satisfies(current: &SemVersion, require: &str) -> (r: Result<bool, CtxError>)
    ensures
        match r {
            Ok(b) => satisfies_result(current.source(), require@) == Ok::<bool, Seq<char>>(b),
            Err(e) => satisfies_result(current.source(), require@) == Err::<bool, Seq<char>>(
                e.text(),
            ),
        },
{
    proof {
        use_type_invariant(current);
    }
    let t = trim_str(require);
    let req = t.as_str();
    if req.is_empty() {
        return Err(
            CtxError::Other(
                "--require needs a version (e.g. \"0.2\") or requirement (e.g. \">=0.2\")".to_string(),
            ),
        );
    }
    if has_operator(req) {
        return match semver_req_parse_error(req) {
            Some(m) => {
                let mut msg = String::new();
                push_str(&mut msg, "invalid version requirement '");
                push_str(&mut msg, req);
                push_str(&mut msg, "': ");
                push_str(&mut msg, m.as_str());
                Err(CtxError::Other(msg))
            },
            None => Ok(semver_req_matches(req, current.text.as_str())),
        };
    }
    let p = pad_bare_version(req);
    match semver_parse_error(p.as_str()) {
        Some(m) => {
            let mut msg = String::new();
            push_str(&mut msg, "invalid version '");
            push_str(&mut msg, req);
            push_str(&mut msg, "': ");
            push_str(&mut msg, m.as_str());
            Err(CtxError::Other(msg))
        },
        None => Ok(semver_at_least(current.text.as_str(), p.as_str())),
    }
}

} // verus!
