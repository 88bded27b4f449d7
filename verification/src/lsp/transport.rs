//! Transport-level failures of a JSON-RPC connection to a language server.

use vstd::prelude::*;

use crate::text::{
    all_digits, ascii_lower_str, chars_of, digit_char, digits_value, is_ws, find_char_from, index_of, is_digit,
    lemma_digits_mono, lemma_index_of, nat_text, push_chars, push_str, to_ascii_lower, trim,
    trim_end, trim_end_index, trim_range, trim_start, u64_text,
};

verus! {

/// Transport-level failures surfaced to the client layer.
#[derive(Debug)]
pub enum TransportError {
    /// No response arrived within the deadline, or the outgoing message
    /// could not be queued for writing within it.
    Timeout,
    /// The peer closed the connection or the transport was shut down.
    Closed,
    /// The server answered with a JSON-RPC error object.
    Rpc(String),
    /// A message could not be written.
    Io(String),
}

/// The text of a transport error (its `Display` form).
pub open spec fn transport_error_text(e: TransportError) -> Seq<char> {
    match e {
        TransportError::Timeout => "request timed out"@,
        TransportError::Closed => "connection closed"@,
        TransportError::Rpc(m) => "server error: "@ + m@,
        TransportError::Io(m) => "write failed: "@ + m@,
    }
}

impl TransportError {
    /// The human-readable message.
    pub fn message(&self) -> (r: String)
        ensures
            r@ == transport_error_text(*self),
    {
        let mut out = String::new();
        match self {
            TransportError::Timeout => push_str(&mut out, "request timed out"),
            TransportError::Closed => push_str(&mut out, "connection closed"),
            TransportError::Rpc(m) => {
                push_str(&mut out, "server error: ");
                push_str(&mut out, m.as_str());
            },
            TransportError::Io(m) => {
                push_str(&mut out, "write failed: ");
                push_str(&mut out, m.as_str());
            },
        }
        out
    }
}

/// Why a server could not be started, plus any stderr it left behind.
#[derive(Debug)]
pub struct SpawnError {
    pub reason: String,
    pub stderr: Vec<String>,
}


// ---------------------------------------------------------------------------
// Content-Length framing
// ---------------------------------------------------------------------------

/// Maximum accepted `Content-Length` (64 MB); anything larger is a framing
/// error.
pub const MAX_CONTENT_LENGTH: usize = 67108864;

/// `str::parse` for an unsigned type whose largest value is `max`: an
/// optional `+` followed by one or more ASCII digits whose value is at most
/// `max`.
pub open spec fn parse_unsigned_spec(s: Seq<char>, max: int) -> Option<int> {
    let d = if s.len() > 0 && s[0] == '+' {
        s.drop_first()
    } else {
        s
    };
    if d.len() > 0 && all_digits(d) && digits_value(d) <= max {
        Some(digits_value(d))
    } else {
        None
    }
}

/// `str::parse::<usize>`.
pub open spec fn parse_usize_spec(s: Seq<char>) -> Option<usize> {
    match parse_unsigned_spec(s, usize::MAX as int) {
        Some(v) => Some(v as usize),
        None => None,
    }
}

/// `str::parse::<u64>`.
pub open spec fn parse_u64_spec(s: Seq<char>) -> Option<u64> {
    match parse_unsigned_spec(s, u64::MAX as int) {
        Some(v) => Some(v as u64),
        None => None,
    }
}

/// [`parse_unsigned_spec`] over characters.
fn parse_unsigned(s: &[char], max: u64) -> (r: Option<u64>)
    ensures
        match r {
            Some(v) => parse_unsigned_spec(s@, max as int) == Some(v as int),
            None => parse_unsigned_spec(s@, max as int) is None,
        },
{
    let start: usize = if s.len() > 0 && s[0] == '+' {
        1
    } else {
        0
    };
    let ghost d = s@.skip(start as int);
    assert(d =~= (if s@.len() > 0 && s@[0] == '+' {
        s@.drop_first()
    } else {
        s@
    }));
    if start >= s.len() {
        return None;
    }
    let mut v: u64 = 0;
    let mut i: usize = start;
    while i < s.len()
        invariant
            start <= i <= s@.len(),
            start < s@.len(),
            d == s@.skip(start as int),
            parse_unsigned_spec(s@, max as int) == (if d.len() > 0 && all_digits(d) && digits_value(
                d,
            ) <= max {
                Some(digits_value(d))
            } else {
                None::<int>
            }),
            all_digits(d.take(i - start)),
            v == digits_value(d.take(i - start)),
            v <= max,
        decreases s@.len() - i,
    {
        let c = s[i];
        assert(d[i - start] == c);
        assert(d.take(i + 1 - start).drop_last() =~= d.take(i - start));
        if !('0' <= c && c <= '9') {
            assert(!all_digits(d));
            return None;
        }
        let dv: u64 = (c as u32 - 48) as u64;
        assert(dv == c as int - 48);
        assert(all_digits(d.take(i + 1 - start))) by {
            assert forall|k: int| 0 <= k < d.take(i + 1 - start).len() implies is_digit(
                #[trigger] d.take(i + 1 - start)[k],
            ) by {
                if k < i - start {
                    assert(d.take(i + 1 - start)[k] == d.take(i - start)[k]);
                }
            }
        }
        assert(digits_value(d.take(i + 1 - start)) == v * 10 + dv);
        if dv > max || v > (max - dv) / 10 {
            assert(v * 10 + dv > max) by (nonlinear_arith)
                requires
                    dv > max || v > (max - dv) / 10,
                    dv <= 9,
            ;
            proof {
                if all_digits(d) {
                    lemma_digits_mono(d, (i + 1 - start) as int);
                }
            }
            return None;
        }
        assert(v * 10 + dv <= max) by (nonlinear_arith)
            requires
                dv <= max,
                v <= (max - dv) / 10,
                dv <= 9,
        ;
        v = v * 10 + dv;
        i = i + 1;
    }
    assert(d.take(i - start) =~= d);
    Some(v)
}

/// `str::parse::<usize>` over characters.
pub fn parse_usize(s: &[char]) -> (r: Option<usize>)
    ensures
        r == parse_usize_spec(s@),
{
    match parse_unsigned(s, usize::MAX as u64) {
        Some(v) => Some(v as usize),
        None => None,
    }
}

/// `str::parse::<u64>` over characters.
pub fn parse_u64(s: &[char]) -> (r: Option<u64>)
    ensures
        r == parse_u64_spec(s@),
{
    parse_unsigned(s, u64::MAX)
}

/// One header line (as read, line ending included) of an incoming message:
/// `None` ends the headers (a blank line); otherwise the `Content-Length`
/// known so far, updated when the line is a `content-length` header (name
/// compared ignoring ASCII case, value trimmed and parsed; an unparseable
/// value forgets the length).
pub open spec fn header_step(length: Option<usize>, line: Seq<char>) -> Option<Option<usize>> {
    let t = trim_end(line);
    if t.len() == 0 {
        None
    } else {
        let i = index_of(t, ':');
        if i >= 0 && ascii_lower_str(t.take(i)) == "content-length"@ {
            Some(parse_usize_spec(trim(t.skip(i + 1))))
        } else {
            Some(length)
        }
    }
}

/// Executable [`header_step`].
pub fn read_header_line(length: Option<usize>, line: &str) -> (r: Option<Option<usize>>)
    ensures
        r == header_step(length, line@),
{
    let cs = chars_of(line);
    let end = trim_end_index(cs.as_slice(), 0, cs.len());
    assert(cs@.subrange(0, cs@.len() as int) =~= cs@);
    let ghost t = trim_end(line@);
    assert(t == cs@.subrange(0, end as int));
    if end == 0 {
        return None;
    }
    let tc = crate::text::slice_range(cs.as_slice(), 0, end);
    assert(tc@ == t);
    assert(tc@.skip(0) =~= tc@);
    match find_char_from(tc.as_slice(), ':', 0) {
        None => Some(length),
        Some(i) => {
            let name = crate::text::slice_range(tc.as_slice(), 0, i);
            let lower = to_ascii_lower(name.as_slice());
            let key = chars_of("content-length");
            if crate::text::chars_eq(lower.as_slice(), key.as_slice()) {
                let (a, b) = trim_range(tc.as_slice(), i + 1, tc.len());
                let value = crate::text::slice_range(tc.as_slice(), a, b);
                assert(tc@.skip(i + 1) =~= tc@.subrange(i + 1, tc@.len() as int));
                Some(parse_usize(value.as_slice()))
            } else {
                assert(name@ =~= t.take(i as int));
                Some(length)
            }
        },
    }
}

/// The body length announced by the headers: `None` (a framing error)
/// without a length or beyond [`MAX_CONTENT_LENGTH`].
pub open spec fn body_length_spec(length: Option<usize>) -> Option<usize> {
    match length {
        Some(n) => if n <= MAX_CONTENT_LENGTH {
            Some(n)
        } else {
            None
        },
        None => None,
    }
}

/// Executable [`body_length_spec`].
pub fn body_length(length: Option<usize>) -> (r: Option<usize>)
    ensures
        r == body_length_spec(length),
{
    match length {
        Some(n) => if n <= MAX_CONTENT_LENGTH {
            Some(n)
        } else {
            None
        },
        None => None,
    }
}

/// The header written before a body of `n` bytes.
pub open spec fn frame_header_text(n: nat) -> Seq<char> {
    "Content-Length: "@ + nat_text(n) + "\r\n\r\n"@
}

/// The header written before a body of `body_len` bytes.
pub fn frame_header(body_len: usize) -> (r: String)
    ensures
        r@ == frame_header_text(body_len as nat),
{
    let mut out = String::new();
    push_str(&mut out, "Content-Length: ");
    let digits = u64_text(body_len as u64);
    push_chars(&mut out, digits.as_slice());
    push_str(&mut out, "\r\n\r\n");
    out
}


/// The decimal text of a number is a non-empty run of digits that reads
/// back as the number.
proof fn lemma_nat_text_reads_back(n: nat)
    ensures
        nat_text(n).len() > 0,
        all_digits(nat_text(n)),
        digits_value(nat_text(n)) == n,
    decreases n,
{
    let r = n % 10;
    assert(digit_char(r as int) as int == r + 48);
    assert(is_digit(digit_char(r as int)));
    if n < 10 {
        assert(r == n);
        let t = nat_text(n);
        assert(t == seq![digit_char(n as int)]);
        assert(t.drop_last() =~= Seq::<char>::empty());
        assert(digits_value(t) == digits_value(t.drop_last()) * 10 + (t.last() as int - 48));
        assert(digits_value(Seq::<char>::empty()) == 0);
    } else {
        lemma_nat_text_reads_back(n / 10);
        let t = nat_text(n);
        let p = nat_text(n / 10);
        assert(t.drop_last() =~= p);
        assert forall|k: int| 0 <= k < t.len() implies is_digit(#[trigger] t[k]) by {
            if k < p.len() {
                assert(t[k] == p[k]);
            }
        }
        assert(n == (n / 10) * 10 + n % 10) by (nonlinear_arith);
        assert(t.last() == digit_char(r as int));
        assert(digits_value(t) == digits_value(p) * 10 + (t.last() as int - 48));
    }
}

/// A run of digits has no whitespace at either end.
proof fn lemma_digits_are_trimmed(d: Seq<char>)
    requires
        d.len() > 0,
        all_digits(d),
    ensures
        trim_end(d) == d,
        trim_start(d) == d,
{
    assert(is_digit(d[0]));
    assert(is_digit(d[d.len() - 1]));
}

/// The header written for a body of `n` bytes reads back as `n`: its first
/// line (`Content-Length: n`) sets the length whatever was known before,
/// its blank line ends the headers, and the length is accepted.
pub proof fn law_frame_header_reads_back(n: usize, before: Option<usize>)
    requires
        n <= MAX_CONTENT_LENGTH,
    ensures
        frame_header_text(n as nat) == "Content-Length: "@ + nat_text(n as nat) + "\r\n"@ + "\r\n"@,
        header_step(before, "Content-Length: "@ + nat_text(n as nat) + "\r\n"@) == Some(Some(n)),
        header_step(Some(n), "\r\n"@) == None::<Option<usize>>,
        body_length_spec(Some(n)) == Some(n),
{
    reveal_strlit("Content-Length: ");
    reveal_strlit("\r\n");
    reveal_strlit("\r\n\r\n");
    reveal_strlit("content-length");
    let d = nat_text(n as nat);
    lemma_nat_text_reads_back(n as nat);
    lemma_digits_are_trimmed(d);
    assert(frame_header_text(n as nat) =~= "Content-Length: "@ + d + "\r\n"@ + "\r\n"@);
    let p = "Content-Length: "@;
    let t = p + d;
    let line = t + "\r\n"@;
    // trailing line ending
    assert(line.drop_last() =~= t.push('\r'));
    assert(t.push('\r').drop_last() =~= t);
    assert(t.last() == d.last());
    assert(is_digit(d[d.len() - 1]));
    assert(trim_end(t) == t);
    assert(is_ws('\n') && is_ws('\r'));
    assert(line.last() == '\n');
    assert(trim_end(t.push('\r')) == trim_end(t));
    assert(trim_end(line) == trim_end(t.push('\r')));
    assert(trim_end(line) == t);
    // the name
    lemma_index_of(t, ':');
    assert(t[14] == ':');
    assert forall|k: int| 0 <= k < 14 implies t[k] != ':' by {
        assert(t[k] == p[k]);
    }
    assert(index_of(t, ':') == 14);
    assert(ascii_lower_str(t.take(14)) =~= "content-length"@);
    // the value
    assert(t.skip(15) =~= seq![' '] + d);
    assert((seq![' '] + d).drop_first() =~= d);
    assert(trim_start(t.skip(15)) == d);
    assert(trim(t.skip(15)) == d);
    assert(is_digit(d[0]));
    assert(header_step(before, line) == Some(Some(n)));
    // the blank line
    let blank = "\r\n"@;
    assert(blank.drop_last() =~= seq!['\r']);
    assert(seq!['\r'].drop_last() =~= Seq::<char>::empty());
    assert(trim_end(seq!['\r']) == trim_end(Seq::<char>::empty()));
    assert(trim_end(blank) == trim_end(seq!['\r']));
    assert(trim_end(blank) =~= Seq::<char>::empty());
}


/// The reply to a server-to-client request the client does not implement.
#[derive(Debug, PartialEq, Eq, Structural)]
pub enum AutoReply {
    /// An array of this many `null`s.
    Nulls(usize),
    /// A `null` result.
    Null,
}

/// The reply to the server request `method`: `workspace/configuration` gets
/// one `null` per requested item (`items`, one when not given); everything
/// else is acknowledged with `null`.
pub fn auto_reply(method: &str, items: Option<usize>) -> (r: AutoReply)
    ensures
        r == (if method@ == "workspace/configuration"@ {
            AutoReply::Nulls(
                match items {
                    Some(n) => n,
                    None => 1,
                },
            )
        } else {
            AutoReply::Null
        }),
{
    if crate::text::str_eq(method, "workspace/configuration") {
        AutoReply::Nulls(
            match items {
                Some(n) => n,
                None => 1,
            },
        )
    } else {
        AutoReply::Null
    }
}

} // verus!
