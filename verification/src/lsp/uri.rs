//! `file://` URIs for local paths: percent-encoding of the path bytes,
//! Windows verbatim-prefix stripping, and decoding back to a path.

use vstd::prelude::*;

use vstd::string::StringSliceAdditionalSpecFns;
use vstd::utf8::{decode_utf8, encode_utf8, is_ascii_chars, valid_utf8};

use crate::text::{
    chars_eq, chars_of, find_char_from, index_of, lemma_index_of, matches_at, occurs_at,
    push_char, push_str, slice_range, string_from,
};

verus! {

// ---------------------------------------------------------------------------
// std conversions
// ---------------------------------------------------------------------------

/// `std::str::from_utf8`: succeeds exactly on valid UTF-8, and the string
/// holds the same bytes.
#[verifier::external_body]
fn str_from_utf8(bytes: &[u8]) -> (r: Option<&str>)
    ensures
        r is Some <==> valid_utf8(bytes@),
        r matches Some(s) ==> s.spec_bytes() == bytes@,
{
    std::str::from_utf8(bytes).ok()
}

/// `String::from_utf8`: succeeds exactly on valid UTF-8, and the string
/// holds the same bytes.
#[verifier::external_body]
fn string_from_utf8(bytes: Vec<u8>) -> (r: Option<String>)
    ensures
        r is Some <==> valid_utf8(bytes@),
        r matches Some(s) ==> encode_utf8(s@) == bytes@,
{
    String::from_utf8(bytes).ok()
}

/// The value of a hexadecimal digit (either case).
pub open spec fn hex_value(c: char) -> Option<int> {
    if '0' <= c && c <= '9' {
        Some(c as int - 48)
    } else if 'a' <= c && c <= 'f' {
        Some(c as int - 87)
    } else if 'A' <= c && c <= 'F' {
        Some(c as int - 55)
    } else {
        None
    }
}

/// The value of a run of hexadecimal digits.
pub open spec fn hex_digits_value(ds: Seq<char>) -> int
    decreases ds.len(),
{
    if ds.len() == 0 {
        0
    } else {
        16 * hex_digits_value(ds.drop_last()) + hex_value(ds.last())->0
    }
}

/// What `u8::from_str_radix(s, 16)` gives for a text of at most two
/// characters: an optional `+` followed by at least one hexadecimal digit
/// and nothing else.
pub open spec fn radix16_u8(s: Seq<char>) -> Option<u8> {
    let ds = unsigned_digits(s);
    if ds.len() > 0 && all_hex(ds) {
        Some(hex_digits_value(ds) as u8)
    } else {
        None
    }
}

/// `s` without one leading `+`.
pub open spec fn unsigned_digits(s: Seq<char>) -> Seq<char> {
    if s.len() > 0 && s[0] == '+' {
        s.skip(1)
    } else {
        s
    }
}

/// Whether every character of `ds` is a hexadecimal digit.
pub open spec fn all_hex(ds: Seq<char>) -> bool {
    forall|i: int| 0 <= i < ds.len() ==> (#[trigger] hex_value(ds[i])) is Some
}

fn hex_digit(c: char) -> (r: Option<u8>)
    ensures
        match hex_value(c) {
            Some(v) => r == Some(v as u8),
            None => r is None,
        },
{
    if '0' <= c && c <= '9' {
        Some(((c as u32) - 48) as u8)
    } else if 'a' <= c && c <= 'f' {
        Some(((c as u32) - 87) as u8)
    } else if 'A' <= c && c <= 'F' {
        Some(((c as u32) - 55) as u8)
    } else {
        None
    }
}

/// The value `u8::from_str_radix(s, 16)` gives for a text of at most two
/// characters (see [`radix16_u8`]): an optional `+` sign followed by
/// digits `0-9`, `a-f`, `A-F` only.
fn u8_from_hex(s: &str) -> (r: Option<u8>)
    requires
        s@.len() <= 2,
    ensures
        r == radix16_u8(s@),
{
    let cs = chars_of(s);
    let start: usize = if cs.len() > 0 && cs[0] == '+' {
        1
    } else {
        0
    };
    let ghost ds = unsigned_digits(s@);
    assert(ds =~= cs@.skip(start as int));
    if start >= cs.len() {
        return None;
    }
    let mut v: u32 = 0;
    let mut i: usize = start;
    while i < cs.len()
        invariant
            start <= i <= cs@.len(),
            cs@.len() <= 2,
            cs@ == s@,
            ds == cs@.skip(start as int),
            ds == unsigned_digits(s@),
            forall|k: int| 0 <= k < i - start ==> (#[trigger] hex_value(ds[k])) is Some,
            v == hex_digits_value(ds.take(i - start)),
            v < 256,
            i - start <= 1 ==> v < 16,
        decreases cs@.len() - i,
    {
        assert(ds[i - start] == cs@[i as int]);
        match hex_digit(cs[i]) {
            Some(d) => {
                assert(ds.take(i - start + 1).drop_last() =~= ds.take(i - start));
                v = v * 16 + d as u32;
            },
            None => {
                assert(hex_value(ds[i - start]) is None);
                assert(!all_hex(ds));
                return None;
            },
        }
        i = i + 1;
    }
    assert(ds.take(i - start) =~= ds);
    Some(v as u8)
}

// ---------------------------------------------------------------------------
// Encoding
// ---------------------------------------------------------------------------

/// Bytes left unencoded in the path portion of a `file://` URI.
pub open spec fn uri_path_byte(b: u8) -> bool {
    (48 <= b <= 57) || (65 <= b <= 90) || (97 <= b <= 122) || b == 45 || b == 46 || b == 95
        || b == 126 || b == 47 || b == 58
}

/// Bytes left unencoded in the path portion of a `file://` URI: ASCII
/// letters and digits and `- . _ ~ / :`.
pub fn is_uri_path_byte(b: u8) -> (r: bool)
    ensures
        r == uri_path_byte(b),
{
    (48 <= b && b <= 57) || (65 <= b && b <= 90) || (97 <= b && b <= 122) || b == 45 || b == 46
        || b == 95 || b == 126 || b == 47 || b == 58
}

/// The upper-case hexadecimal digit byte of `n < 16`.
pub open spec fn hex_byte(n: int) -> u8 {
    if n < 10 {
        (48 + n) as u8
    } else {
        (55 + n) as u8
    }
}

/// The URI form of one path byte: itself, or `%XX` in upper-case hex.
pub open spec fn escape_byte(b: u8) -> Seq<u8> {
    if uri_path_byte(b) {
        seq![b]
    } else {
        seq![37u8, hex_byte(b as int / 16), hex_byte(b as int % 16)]
    }
}

/// The URI form of a byte sequence.
pub open spec fn escape_all(bs: Seq<u8>) -> Seq<u8>
    decreases bs.len(),
{
    if bs.len() == 0 {
        seq![]
    } else {
        escape_byte(bs[0]) + escape_all(bs.skip(1))
    }
}

/// ASCII bytes as characters.
pub open spec fn ascii_chars(bs: Seq<u8>) -> Seq<char> {
    bs.map_values(|b: u8| (b as u32) as char)
}

/// A Windows verbatim prefix stripped: `\\?\UNC\` becomes `\\`, `\\?\` is
/// dropped, anything else is unchanged.
pub open spec fn verbatim_stripped(raw: Seq<char>) -> Seq<char> {
    let unc = seq!['\\', '\\', '?', '\\', 'U', 'N', 'C', '\\'];
    let pre = seq!['\\', '\\', '?', '\\'];
    if occurs_at(raw, unc, 0) {
        seq!['\\', '\\'] + raw.skip(8)
    } else if occurs_at(raw, pre, 0) {
        raw.skip(4)
    } else {
        raw
    }
}

/// Backslashes turned into slashes.
pub open spec fn slashes(s: Seq<char>) -> Seq<char> {
    s.map_values(|c: char| if c == '\\' { '/' } else { c })
}

/// The path text a URI is built from.
pub open spec fn uri_source(path: Seq<char>) -> Seq<char> {
    slashes(verbatim_stripped(path))
}

/// Whether a text starts with `/`.
pub open spec fn rooted(s: Seq<char>) -> bool {
    s.len() > 0 && s[0] == '/'
}

/// The `file://` URI of a path: `file://`, a `/` for paths that do not
/// start with one (drive paths), then the percent-encoded UTF-8 bytes.
pub open spec fn uri_of_path(path: Seq<char>) -> Seq<char> {
    let raw = uri_source(path);
    "file://"@ + (if rooted(raw) {
        seq![]
    } else {
        seq!['/']
    }) + ascii_chars(escape_all(encode_utf8(raw)))
}

/// Strip a Windows verbatim (extended-length) prefix from a path string:
/// `\\?\C:\...` becomes `C:\...` and `\\?\UNC\server\share\...` becomes
/// `\\server\share\...`. Anything else is returned unchanged.
pub fn strip_verbatim(raw: &str) -> (r: String)
    ensures
        r@ == verbatim_stripped(raw@),
{
    let cs = chars_of(raw);
    let unc = vec!['\\', '\\', '?', '\\', 'U', 'N', 'C', '\\'];
    let pre = vec!['\\', '\\', '?', '\\'];
    assert(unc@ =~= seq!['\\', '\\', '?', '\\', 'U', 'N', 'C', '\\']);
    assert(pre@ =~= seq!['\\', '\\', '?', '\\']);
    if matches_at(cs.as_slice(), unc.as_slice(), 0) {
        let mut out = String::new();
        push_char(&mut out, '\\');
        push_char(&mut out, '\\');
        let rest = slice_range(cs.as_slice(), 8, cs.len());
        let tail = string_from(rest.as_slice());
        push_str(&mut out, tail.as_str());
        assert(out@ =~= seq!['\\', '\\'] + raw@.skip(8));
        out
    } else if matches_at(cs.as_slice(), pre.as_slice(), 0) {
        let rest = slice_range(cs.as_slice(), 4, cs.len());
        assert(rest@ =~= raw@.skip(4));
        string_from(rest.as_slice())
    } else {
        string_from(cs.as_slice())
    }
}

/// Strip the leading slash of a URI path like `/C:/Users/x` so it becomes a
/// Windows drive path; other texts are unchanged.
pub open spec fn drive_slash_stripped(text: Seq<char>) -> Seq<char> {
    if text.len() >= 3 && text[0] == '/' && (('a' <= text[1] && text[1] <= 'z') || ('A' <= text[1]
        && text[1] <= 'Z')) && text[2] == ':' {
        text.skip(1)
    } else {
        text
    }
}

/// Strip the leading slash of a URI path like `/C:/Users/x` (the decoded
/// path of `file:///C:/...`) so it becomes a Windows drive path.
pub fn strip_uri_drive_slash(text: String) -> (r: String)
    ensures
        r@ == drive_slash_stripped(text@),
{
    let cs = chars_of(text.as_str());
    if cs.len() >= 3 && cs[0] == '/' && (('a' <= cs[1] && cs[1] <= 'z') || ('A' <= cs[1] && cs[1]
        <= 'Z')) && cs[2] == ':' {
        let rest = slice_range(cs.as_slice(), 1, cs.len());
        assert(rest@ =~= text@.skip(1));
        string_from(rest.as_slice())
    } else {
        text
    }
}

/// The upper-case hexadecimal digit of `n < 16`.
fn hex_upper(n: u8) -> (c: char)
    requires
        n < 16,
    ensures
        c == (hex_byte(n as int) as u32) as char,
{
    if n < 10 {
        (48u8 + n) as char
    } else {
        (55u8 + n) as char
    }
}

proof fn lemma_escape_all_push(bs: Seq<u8>, b: u8)
    ensures
        escape_all(bs.push(b)) == escape_all(bs) + escape_byte(b),
    decreases bs.len(),
{
    if bs.len() == 0 {
        assert(bs.push(b).skip(1) =~= Seq::<u8>::empty());
        assert(bs.push(b)[0] == b);
        assert(escape_all(Seq::<u8>::empty()) =~= Seq::<u8>::empty());
        assert(escape_all(bs) =~= Seq::<u8>::empty());
        assert(escape_all(bs.push(b)) =~= escape_byte(b));
    } else {
        assert(bs.push(b).skip(1) =~= bs.skip(1).push(b));
        assert(bs.push(b)[0] == bs[0]);
        lemma_escape_all_push(bs.skip(1), b);
        assert(escape_all(bs.push(b)) =~= escape_all(bs) + escape_byte(b));
    }
}

/// Build a `file://` URI for an absolute path.
pub fn path_to_uri(path: &str) -> (r: String)
    ensures
        r@ == uri_of_path(path@),
{
    let stripped = strip_verbatim(path);
    let cs = chars_of(stripped.as_str());
    let mut raw_chars: Vec<char> = Vec::new();
    let mut i: usize = 0;
    while i < cs.len()
        invariant
            i <= cs@.len(),
            cs@ == verbatim_stripped(path@),
            raw_chars@ == slashes(cs@).take(i as int),
        decreases cs@.len() - i,
    {
        let c = if cs[i] == '\\' {
            '/'
        } else {
            cs[i]
        };
        raw_chars.push(c);
        assert(slashes(cs@).take(i + 1) =~= slashes(cs@).take(i as int).push(c));
        i = i + 1;
    }
    assert(slashes(cs@).take(i as int) =~= slashes(cs@));
    let raw = string_from(raw_chars.as_slice());
    let mut encoded = String::new();
    push_str(&mut encoded, "file://");
    if !(raw_chars.len() > 0 && raw_chars[0] == '/') {
        push_char(&mut encoded, '/');
    }
    let ghost head = encoded@;
    let bytes = raw.as_str().as_bytes();
    let ghost bs = encode_utf8(raw@);
    assert(bytes@ == bs);
    let mut k: usize = 0;
    while k < bytes.len()
        invariant
            k <= bytes@.len(),
            bytes@ == bs,
            encoded@ == head + ascii_chars(escape_all(bs.take(k as int))),
        decreases bytes@.len() - k,
    {
        let b = bytes[k];
        proof {
            assert(bs.take(k + 1) =~= bs.take(k as int).push(b));
            lemma_escape_all_push(bs.take(k as int), b);
        }
        let ghost before = encoded@;
        if is_uri_path_byte(b) {
            push_char(&mut encoded, b as char);
        } else {
            push_char(&mut encoded, '%');
            push_char(&mut encoded, hex_upper(b / 16));
            push_char(&mut encoded, hex_upper(b % 16));
        }
        assert(encoded@ =~= before + ascii_chars(escape_byte(b)));
        assert(ascii_chars(escape_all(bs.take(k + 1))) =~= ascii_chars(escape_all(bs.take(k as int)))
            + ascii_chars(escape_byte(b)));
        k = k + 1;
    }
    assert(bs.take(k as int) =~= bs);
    encoded
}

// ---------------------------------------------------------------------------
// Decoding
// ---------------------------------------------------------------------------

/// The byte a `%` escape with the two following bytes stands for, as the
/// decoder reads it (text of the two bytes, parsed as base 16).
pub open spec fn escape_value(b1: u8, b2: u8) -> Option<u8> {
    let two = seq![b1, b2];
    if valid_utf8(two) {
        radix16_u8(decode_utf8(two))
    } else {
        None
    }
}

/// Percent-decoding of a byte sequence: a `%` followed by at least two
/// bytes is an escape (which must decode); everything else is kept.
pub open spec fn percent_decode(b: Seq<u8>) -> Option<Seq<u8>>
    decreases b.len(),
{
    if b.len() == 0 {
        Some(seq![])
    } else if b[0] == 37 && 2 < b.len() {
        match escape_value(b[1], b[2]) {
            None => None,
            Some(v) => match percent_decode(b.skip(3)) {
                Some(r) => Some(seq![v] + r),
                None => None,
            },
        }
    } else {
        match percent_decode(b.skip(1)) {
            Some(r) => Some(seq![b[0]] + r),
            None => None,
        }
    }
}

/// The path a `file://` URI names: the URI must start with `file://` and
/// have an empty or `localhost` authority; the rest is percent-decoded and
/// must be UTF-8.
pub open spec fn path_of_uri(u: Seq<char>) -> Option<Seq<char>> {
    if !occurs_at(u, "file://"@, 0) {
        None
    } else {
        let rest = u.skip(7);
        let i = index_of(rest, '/');
        if i < 0 {
            None
        } else if i > 0 && rest.take(i) != "localhost"@ {
            None
        } else {
            match percent_decode(encode_utf8(rest.skip(i))) {
                None => None,
                Some(d) => if valid_utf8(d) {
                    Some(decode_utf8(d))
                } else {
                    None
                },
            }
        }
    }
}

/// Parse a `file://` URI back into a filesystem path.
pub fn uri_to_path(uri: &str) -> (r: Option<String>)
    ensures
        match r {
            Some(p) => path_of_uri(uri@) == Some(p@),
            None => path_of_uri(uri@) is None,
        },
{
    let cs = chars_of(uri);
    let prefix = vec!['f', 'i', 'l', 'e', ':', '/', '/'];
    proof {
        reveal_strlit("file://");
        assert(prefix@ =~= "file://"@);
    }
    if !matches_at(cs.as_slice(), prefix.as_slice(), 0) {
        return None;
    }
    let rest = slice_range(cs.as_slice(), 7, cs.len());
    assert(rest@ =~= uri@.skip(7));
    assert(rest@.skip(0) =~= rest@);
    let i = match find_char_from(rest.as_slice(), '/', 0) {
        Some(i) => i,
        None => return None,
    };
    if i > 0 {
        let authority = slice_range(rest.as_slice(), 0, i);
        let localhost = vec!['l', 'o', 'c', 'a', 'l', 'h', 'o', 's', 't'];
        proof {
            reveal_strlit("localhost");
            assert(localhost@ =~= "localhost"@);
            assert(authority@ =~= rest@.take(i as int));
        }
        if !chars_eq(authority.as_slice(), localhost.as_slice()) {
            return None;
        }
    }
    let part = slice_range(rest.as_slice(), i, rest.len());
    assert(part@ =~= rest@.skip(i as int));
    let path_part = string_from(part.as_slice());
    let bytes = path_part.as_str().as_bytes();
    let ghost bs = encode_utf8(path_part@);
    assert(bytes@ == bs);
    let ghost final_path = match percent_decode(bs) {
        None => None,
        Some(d) => if valid_utf8(d) {
            Some(decode_utf8(d))
        } else {
            None
        },
    };
    assert(path_of_uri(uri@) == final_path);
    let mut decoded: Vec<u8> = Vec::new();
    let mut k: usize = 0;
    assert(bs.skip(0) =~= bs);
    assert(decoded@ + Seq::<u8>::empty() =~= decoded@);
    while k < bytes.len()
        invariant
            k <= bytes@.len(),
            bytes@ == bs,
            path_of_uri(uri@) == final_path,
            final_path == match percent_decode(bs) {
                None => None,
                Some(d) => if valid_utf8(d) {
                    Some(decode_utf8(d))
                } else {
                    None
                },
            },
            percent_decode(bs) == match percent_decode(bs.skip(k as int)) {
                Some(r) => Some(decoded@ + r),
                None => None,
            },
        decreases bytes@.len() - k,
    {
        let ghost tail = bs.skip(k as int);
        assert(tail[0] == bytes@[k as int]);
        if bytes[k] == 37 && bytes.len() - k > 2 {
            assert(tail[1] == bytes@[k + 1]);
            assert(tail[2] == bytes@[k + 2]);
            let two = vec![bytes[k + 1], bytes[k + 2]];
            assert(two@ =~= seq![bytes@[k + 1], bytes@[k + 2]]);
            let hex = match str_from_utf8(two.as_slice()) {
                Some(h) => h,
                None => return None,
            };
            proof {
                vstd::utf8::encode_utf8_decode_utf8(hex@);
                vstd::utf8::encode_utf8_valid_utf8(hex@);
                assert(hex@.len() <= 2) by {
                    lemma_decode_len_le(two@);
                }
            }
            let v = match u8_from_hex(hex) {
                Some(v) => v,
                None => return None,
            };
            let ghost before = decoded@;
            decoded.push(v);
            assert(tail.skip(3) =~= bs.skip(k + 3));
            assert(forall|r: Seq<u8>| before + (seq![v] + r) =~= decoded@ + r);
            k = k + 3;
        } else {
            let ghost before = decoded@;
            decoded.push(bytes[k]);
            assert(tail.skip(1) =~= bs.skip(k + 1));
            assert(forall|r: Seq<u8>| before + (seq![bytes@[k as int]] + r) =~= decoded@ + r);
            k = k + 1;
        }
    }
    assert(bs.skip(k as int) =~= Seq::<u8>::empty());
    assert(decoded@ + Seq::<u8>::empty() =~= decoded@);
    let ghost d = decoded@;
    match string_from_utf8(decoded) {
        Some(s) => {
            proof {
                vstd::utf8::encode_utf8_decode_utf8(s@);
            }
            Some(s)
        },
        None => None,
    }
}

/// Decoding UTF-8 never yields more characters than there are bytes.
proof fn lemma_decode_len_le(bytes: Seq<u8>)
    requires
        valid_utf8(bytes),
    ensures
        decode_utf8(bytes).len() <= bytes.len(),
{
    vstd::utf8::decode_utf8_encode_utf8(bytes);
    lemma_encode_len_ge(decode_utf8(bytes));
}

/// Encoding characters as UTF-8 takes at least one byte per character.
proof fn lemma_encode_len_ge(chars: Seq<char>)
    ensures
        encode_utf8(chars).len() >= chars.len(),
    decreases chars.len(),
{
    if chars.len() > 0 {
        lemma_encode_len_ge(chars.drop_first());
        assert(vstd::utf8::encode_scalar(chars[0] as u32).len() >= 1);
    }
}


// ---------------------------------------------------------------------------
// Round trip
// ---------------------------------------------------------------------------

/// Escaped bytes are ASCII.
proof fn lemma_escape_all_ascii(bs: Seq<u8>)
    ensures
        forall|i: int| 0 <= i < escape_all(bs).len() ==> #[trigger] escape_all(bs)[i] < 128,
    decreases bs.len(),
{
    if bs.len() > 0 {
        lemma_escape_all_ascii(bs.skip(1));
        let e = escape_byte(bs[0]);
        let t = escape_all(bs.skip(1));
        assert forall|i: int| 0 <= i < (e + t).len() implies #[trigger] (e + t)[i] < 128 by {
            if i >= e.len() {
                assert((e + t)[i] == t[i - e.len()]);
            }
        }
    }
}

/// The characters of ASCII bytes encode back to those bytes.
proof fn lemma_ascii_chars_encode(bs: Seq<u8>)
    requires
        forall|i: int| 0 <= i < bs.len() ==> #[trigger] bs[i] < 128,
    ensures
        encode_utf8(ascii_chars(bs)) == bs,
{
    let cs = ascii_chars(bs);
    assert(is_ascii_chars(cs)) by {
        assert forall|i: int| 0 <= i < cs.len() implies '\0' <= #[trigger] cs[i] <= '\u{7f}' by {
            assert(cs[i] == (bs[i] as u32) as char);
        }
    }
    vstd::utf8::is_ascii_chars_encode_utf8(cs);
    assert forall|i: int| 0 <= i < bs.len() implies encode_utf8(cs)[i] == bs[i] by {
        assert(cs[i] == (bs[i] as u32) as char);
        assert(cs[i] as u8 == encode_utf8(cs)[i]);
    }
    assert(encode_utf8(cs) =~= bs);
}

/// A `%` escape written by the encoder decodes to the byte it stands for.
proof fn lemma_escape_value(b: u8)
    ensures
        escape_value(hex_byte(b as int / 16), hex_byte(b as int % 16)) == Some(b),
{
    let h = hex_byte(b as int / 16);
    let l = hex_byte(b as int % 16);
    let two = seq![h, l];
    assert(two[0] < 128 && two[1] < 128);
    lemma_ascii_chars_encode(two);
    let cs = ascii_chars(two);
    vstd::utf8::encode_utf8_valid_utf8(cs);
    vstd::utf8::encode_utf8_decode_utf8(cs);
    assert(valid_utf8(two));
    assert(decode_utf8(two) == cs);
    let hc = cs[0];
    let lc = cs[1];
    assert(hc == (h as u32) as char);
    assert(lc == (l as u32) as char);
    assert(hex_value(hc) == Some(b as int / 16));
    assert(hex_value(lc) == Some(b as int % 16));
    assert(cs.drop_last() =~= seq![hc]);
    assert(seq![hc].drop_last() =~= Seq::<char>::empty());
    assert(hex_digits_value(Seq::<char>::empty()) == 0);
    assert(seq![hc].last() == hc);
    assert(hex_digits_value(seq![hc]) == b as int / 16);
    assert(hex_digits_value(cs) == b as int);
    assert(forall|i: int| 0 <= i < cs.len() ==> (#[trigger] hex_value(cs[i])) is Some);
}

/// Percent-decoding undoes the encoder's escaping.
proof fn lemma_percent_decode_escape(bs: Seq<u8>)
    ensures
        percent_decode(escape_all(bs)) == Some(bs),
    decreases bs.len(),
{
    if bs.len() == 0 {
        assert(escape_all(bs) =~= Seq::<u8>::empty());
    } else {
        let b = bs[0];
        let rest = bs.skip(1);
        let e = escape_all(bs);
        lemma_percent_decode_escape(rest);
        if uri_path_byte(b) {
            assert(e[0] == b);
            assert(e.skip(1) =~= escape_all(rest));
            assert(seq![b] + rest =~= bs);
        } else {
            lemma_escape_value(b);
            assert(e[0] == 37u8);
            assert(e[1] == hex_byte(b as int / 16));
            assert(e[2] == hex_byte(b as int % 16));
            assert(e.skip(3) =~= escape_all(rest));
            assert(seq![b] + rest =~= bs);
        }
    }
}

/// The path part a URI round trip gives back: the URI's source text, with
/// a `/` in front when it does not start with one.
pub open spec fn roundtrip_path(path: Seq<char>) -> Seq<char> {
    let raw = uri_source(path);
    if rooted(raw) {
        raw
    } else {
        seq!['/'] + raw
    }
}

/// Decoding the URI built for a path gives back that path (after verbatim
/// prefixes are stripped and backslashes become slashes; paths that do not
/// start with `/` come back with one in front).
pub proof fn law_uri_roundtrip(path: Seq<char>)
    ensures
        path_of_uri(uri_of_path(path)) == Some(roundtrip_path(path)),
{
    let raw = uri_source(path);
    let full = roundtrip_path(path);
    let b = encode_utf8(full);
    let slash = seq!['/'];
    assert(encode_utf8(slash) =~= seq![47u8]) by {
        assert(is_ascii_chars(slash));
        vstd::utf8::is_ascii_chars_encode_utf8(slash);
        assert(('/' as u8) == 47u8);
    }
    assert(vstd::utf8::encode_scalar('/' as u32) =~= seq![47u8]) by {
        assert(slash.drop_first() =~= Seq::<char>::empty());
        assert(encode_utf8(Seq::<char>::empty()) =~= Seq::<u8>::empty());
        assert(encode_utf8(slash) =~= vstd::utf8::encode_scalar('/' as u32) + encode_utf8(
            slash.drop_first(),
        ));
    }
    // The URI is `file://` followed by the escape of `full`.
    let body = ascii_chars(escape_all(b));
    if rooted(raw) {
        assert(full == raw);
        assert(raw[0] == '/');
        assert(raw =~= slash + raw.drop_first());
    } else {
        assert(full =~= slash + raw);
    }
    assert(full =~= slash + full.drop_first());
    assert(b == encode_utf8(slash + full.drop_first()));
    assert(encode_utf8(slash + full.drop_first()) =~= seq![47u8] + encode_utf8(full.drop_first())) by {
        assert((slash + full.drop_first())[0] == '/');
        assert((slash + full.drop_first()).drop_first() =~= full.drop_first());
    }
    assert(b[0] == 47u8);
    assert(b.skip(1) =~= encode_utf8(full.drop_first()));
    assert(escape_all(b) =~= seq![47u8] + escape_all(b.skip(1))) by {
        assert(uri_path_byte(47u8));
    }
    if rooted(raw) {
        assert(uri_of_path(path) =~= "file://"@ + body);
    } else {
        assert(full.drop_first() =~= raw);
        assert(ascii_chars(seq![47u8] + escape_all(encode_utf8(raw))) =~= seq!['/'] + ascii_chars(
            escape_all(encode_utf8(raw)),
        )) by {
            assert(((47u8 as u32) as char) == '/');
        }
        assert(uri_of_path(path) =~= "file://"@ + body);
    }
    let u = uri_of_path(path);
    reveal_strlit("file://");
    assert(occurs_at(u, "file://"@, 0)) by {
        assert(u.subrange(0, 7) =~= "file://"@);
    }
    assert(u.skip(7) =~= body);
    assert(body[0] == '/') by {
        assert(escape_all(b)[0] == 47u8);
        assert(((47u8 as u32) as char) == '/');
    }
    assert(index_of(body, '/') == 0);
    assert(body.skip(0) =~= body);
    lemma_escape_all_ascii(b);
    lemma_ascii_chars_encode(escape_all(b));
    lemma_percent_decode_escape(b);
    vstd::utf8::encode_utf8_valid_utf8(full);
    vstd::utf8::encode_utf8_decode_utf8(full);
}

} // verus!
