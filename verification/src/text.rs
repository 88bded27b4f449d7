//! Character-level string helpers shared by the rest of the library.
//!
//! Strings are reasoned about through their character sequences (`s@`).

use vstd::prelude::*;

verus! {

/// Append one character to a string.
#[verifier::external_body]
pub(crate) fn push_char(s: &mut String, c: char)
    ensures
        final(s)@ == old(s)@.push(c),
{
    s.push(c);
}

/// The characters of `s`, in order.
pub fn chars_of(s: &str) -> (r: Vec<char>)
    ensures
        r@ == s@,
{
    let mut out: Vec<char> = Vec::new();
    for c in it: s.chars()
        invariant
            out@ == it.seq().take(it.index() as int),
    {
        out.push(c);
    }
    out
}

/// A string holding exactly the characters `cs`.
pub fn string_from(cs: &[char]) -> (r: String)
    ensures
        r@ == cs@,
{
    let mut out = String::new();
    let mut i: usize = 0;
    while i < cs.len()
        invariant
            i <= cs@.len(),
            out@ == cs@.take(i as int),
        decreases cs@.len() - i,
    {
        push_char(&mut out, cs[i]);
        assert(cs@.take(i + 1) == cs@.take(i as int).push(cs@[i as int]));
        i = i + 1;
    }
    assert(cs@.take(cs@.len() as int) == cs@);
    out
}

/// Append the characters of `cs` to `s`.
pub fn push_chars(s: &mut String, cs: &[char])
    ensures
        final(s)@ == old(s)@ + cs@,
{
    let mut i: usize = 0;
    while i < cs.len()
        invariant
            i <= cs@.len(),
            s@ == old(s)@ + cs@.take(i as int),
        decreases cs@.len() - i,
    {
        push_char(s, cs[i]);
        assert(cs@.take(i + 1) == cs@.take(i as int).push(cs@[i as int]));
        i = i + 1;
    }
    assert(cs@.take(cs@.len() as int) == cs@);
}

/// Append `t` to `s`.
pub fn push_str(s: &mut String, t: &str)
    ensures
        final(s)@ == old(s)@ + t@,
{
    let cs = chars_of(t);
    push_chars(s, cs.as_slice());
}

/// Whether two character slices are equal.
pub fn chars_eq(a: &[char], b: &[char]) -> (r: bool)
    ensures
        r == (a@ == b@),
{
    if a.len() != b.len() {
        return false;
    }
    let mut i: usize = 0;
    while i < a.len()
        invariant
            a@.len() == b@.len(),
            i <= a@.len(),
            forall|k: int| 0 <= k < i ==> a@[k] == b@[k],
        decreases a@.len() - i,
    {
        if a[i] != b[i] {
            return false;
        }
        i = i + 1;
    }
    assert(a@ =~= b@);
    true
}

/// Whether two strings hold the same characters.
pub fn str_eq(a: &str, b: &str) -> (r: bool)
    ensures
        r == (a@ == b@),
{
    let ca = chars_of(a);
    let cb = chars_of(b);
    chars_eq(ca.as_slice(), cb.as_slice())
}

/// Unicode `White_Space` property, as used by `char::is_whitespace`.
pub open spec fn is_ws(c: char) -> bool {
    let u = c as u32;
    (0x9 <= u <= 0xd) || u == 0x20 || u == 0x85 || u == 0xa0 || u == 0x1680
        || (0x2000 <= u <= 0x200a) || u == 0x2028 || u == 0x2029 || u == 0x202f
        || u == 0x205f || u == 0x3000
}

/// Executable form of [`is_ws`].
pub fn is_whitespace(c: char) -> (r: bool)
    ensures
        r == is_ws(c),
{
    let u = c as u32;
    (0x9 <= u && u <= 0xd) || u == 0x20 || u == 0x85 || u == 0xa0 || u == 0x1680
        || (0x2000 <= u && u <= 0x200a) || u == 0x2028 || u == 0x2029 || u == 0x202f
        || u == 0x205f || u == 0x3000
}

/// `s` without leading whitespace.
pub open spec fn trim_start(s: Seq<char>) -> Seq<char>
    decreases s.len(),
{
    if s.len() > 0 && is_ws(s[0]) {
        trim_start(s.drop_first())
    } else {
        s
    }
}

/// `s` without trailing whitespace.
pub open spec fn trim_end(s: Seq<char>) -> Seq<char>
    decreases s.len(),
{
    if s.len() > 0 && is_ws(s.last()) {
        trim_end(s.drop_last())
    } else {
        s
    }
}

/// `s` without leading and trailing whitespace (`str::trim`).
pub open spec fn trim(s: Seq<char>) -> Seq<char> {
    trim_end(trim_start(s))
}

/// Index of the first non-whitespace character of `s` at or after `from`.
pub fn skip_ws_from(s: &[char], from: usize) -> (r: usize)
    requires
        from <= s@.len(),
    ensures
        from <= r <= s@.len(),
        trim_start(s@.skip(from as int)) == s@.skip(r as int),
{
    let mut i = from;
    while i < s.len() && is_whitespace(s[i])
        invariant
            from <= i <= s@.len(),
            trim_start(s@.skip(from as int)) == trim_start(s@.skip(i as int)),
        decreases s@.len() - i,
    {
        assert(s@.skip(i as int).drop_first() == s@.skip(i + 1));
        i = i + 1;
    }
    i
}

/// End (exclusive) of `s[from..to]` once trailing whitespace is removed.
pub(crate) fn trim_end_index(s: &[char], from: usize, to: usize) -> (r: usize)
    requires
        from <= to <= s@.len(),
    ensures
        from <= r <= to,
        trim_end(s@.subrange(from as int, to as int)) == s@.subrange(from as int, r as int),
{
    let mut j = to;
    while j > from && is_whitespace(s[j - 1])
        invariant
            from <= j <= to,
            to <= s@.len(),
            trim_end(s@.subrange(from as int, to as int)) == trim_end(s@.subrange(from as int, j as int)),
        decreases j,
    {
        assert(s@.subrange(from as int, j as int).drop_last() == s@.subrange(from as int, j - 1));
        j = j - 1;
    }
    j
}

/// `trim` of the character range `s[from..to]`, as start and end indices.
pub fn trim_range(s: &[char], from: usize, to: usize) -> (r: (usize, usize))
    requires
        from <= to <= s@.len(),
    ensures
        from <= r.0 <= r.1 <= to,
        trim(s@.subrange(from as int, to as int)) == s@.subrange(r.0 as int, r.1 as int),
{
    let sub = slice_range(s, from, to);
    let a = skip_ws_from(sub.as_slice(), 0);
    assert(sub@.skip(0) == sub@);
    let b = trim_end_index(sub.as_slice(), a, sub.len());
    assert(sub@.skip(a as int) == sub@.subrange(a as int, sub@.len() as int));
    assert(sub@.subrange(a as int, b as int) == s@.subrange(from + a, from + b));
    (from + a, from + b)
}

/// The characters `s[from..to]`.
pub fn slice_range(s: &[char], from: usize, to: usize) -> (r: Vec<char>)
    requires
        from <= to <= s@.len(),
    ensures
        r@ == s@.subrange(from as int, to as int),
{
    let mut out: Vec<char> = Vec::new();
    let mut i = from;
    while i < to
        invariant
            from <= i <= to,
            to <= s@.len(),
            out@ == s@.subrange(from as int, i as int),
        decreases to - i,
    {
        out.push(s[i]);
        assert(s@.subrange(from as int, i + 1) == s@.subrange(from as int, i as int).push(s@[i as int]));
        i = i + 1;
    }
    out
}

/// `str::trim`, as an owned string.
pub fn trim_str(s: &str) -> (r: String)
    ensures
        r@ == trim(s@),
{
    let cs = chars_of(s);
    let (a, b) = trim_range(cs.as_slice(), 0, cs.len());
    assert(cs@.subrange(0, cs@.len() as int) == cs@);
    let sub = slice_range(cs.as_slice(), a, b);
    string_from(sub.as_slice())
}

} // verus!

verus! {

/// The decimal digit character for `d` (`0 <= d < 10`).
pub open spec fn digit_char(d: int) -> char {
    ((d + 48) as u32) as char
}

/// Decimal text of a natural number, without leading zeros.
pub open spec fn nat_text(n: nat) -> Seq<char>
    decreases n,
{
    if n < 10 {
        seq![digit_char(n as int)]
    } else {
        nat_text(n / 10) + seq![digit_char((n % 10) as int)]
    }
}

/// Decimal text of an integer, with a leading `-` when negative
/// (the `Display` form of Rust integers).
pub open spec fn int_text(i: int) -> Seq<char> {
    if i < 0 {
        seq!['-'] + nat_text((-i) as nat)
    } else {
        nat_text(i as nat)
    }
}

fn digit(d: u64) -> (c: char)
    requires
        d < 10,
    ensures
        c == digit_char(d as int),
{
    let b: u8 = 48u8 + d as u8;
    b as char
}

/// Decimal text of `n`.
pub fn u64_text(n: u64) -> (r: Vec<char>)
    ensures
        r@ == nat_text(n as nat),
    decreases n,
{
    if n < 10 {
        let mut v: Vec<char> = Vec::new();
        v.push(digit(n));
        v
    } else {
        let mut v = u64_text(n / 10);
        v.push(digit(n % 10));
        v
    }
}

/// Decimal text of `i`, as `Display` renders it.
pub fn i64_text(i: i64) -> (r: Vec<char>)
    ensures
        r@ == int_text(i as int),
{
    if i < 0 {
        let mag: u64 = if i == i64::MIN {
            9223372036854775808u64
        } else {
            (-i) as u64
        };
        let digits = u64_text(mag);
        let mut out: Vec<char> = Vec::new();
        out.push('-');
        let mut j: usize = 0;
        while j < digits.len()
            invariant
                j <= digits@.len(),
                out@ == seq!['-'] + digits@.take(j as int),
            decreases digits@.len() - j,
        {
            out.push(digits[j]);
            assert(digits@.take(j + 1) == digits@.take(j as int).push(digits@[j as int]));
            j = j + 1;
        }
        assert(digits@.take(digits@.len() as int) == digits@);
        out
    } else {
        u64_text(i as u64)
    }
}

/// First index of `c` in `s`, or `-1`.
pub open spec fn index_of(s: Seq<char>, c: char) -> int
    decreases s.len(),
{
    if s.len() == 0 {
        -1
    } else if s[0] == c {
        0
    } else {
        let r = index_of(s.drop_first(), c);
        if r < 0 {
            -1
        } else {
            r + 1
        }
    }
}

/// Facts about [`index_of`]: the position holds `c` and nothing before it does.
pub proof fn lemma_index_of(s: Seq<char>, c: char)
    ensures
        -1 <= index_of(s, c) < s.len(),
        index_of(s, c) >= 0 ==> s[index_of(s, c)] == c,
        forall|k: int| 0 <= k < s.len() && (index_of(s, c) < 0 || k < index_of(s, c)) ==> s[k] != c,
    decreases s.len(),
{
    if s.len() > 0 && s[0] != c {
        lemma_index_of(s.drop_first(), c);
        assert forall|k: int| 0 <= k < s.len() && (index_of(s, c) < 0 || k < index_of(s, c)) implies s[k] != c by {
            if k > 0 {
                assert(s[k] == s.drop_first()[k - 1]);
            }
        }
    }
}

/// Index of the first `c` in `s` at or after `from`.
pub fn find_char_from(s: &[char], c: char, from: usize) -> (r: Option<usize>)
    requires
        from <= s@.len(),
    ensures
        match r {
            Some(j) => from <= j < s@.len() && index_of(s@.skip(from as int), c) == j - from,
            None => index_of(s@.skip(from as int), c) == -1,
        },
{
    let mut i = from;
    while i < s.len()
        invariant
            from <= i <= s@.len(),
            index_of(s@.skip(from as int), c) == (if index_of(s@.skip(i as int), c) < 0 {
                -1
            } else {
                index_of(s@.skip(i as int), c) + (i - from)
            }),
        decreases s@.len() - i,
    {
        if s[i] == c {
            return Some(i);
        }
        assert(s@.skip(i as int).drop_first() == s@.skip(i + 1));
        i = i + 1;
    }
    None
}

/// Whether `p` occurs in `s` at position `i`.
pub open spec fn occurs_at(s: Seq<char>, p: Seq<char>, i: int) -> bool {
    0 <= i && i + p.len() <= s.len() && s.subrange(i, i + p.len()) == p
}

/// First index at which `p` occurs in `s`, or `-1` (`str::find`).
pub open spec fn find_sub(s: Seq<char>, p: Seq<char>) -> int
    decreases s.len(),
{
    if s.len() < p.len() {
        -1
    } else if s.take(p.len() as int) == p {
        0
    } else if s.len() == 0 {
        -1
    } else {
        let r = find_sub(s.drop_first(), p);
        if r < 0 {
            -1
        } else {
            r + 1
        }
    }
}

/// Whether `p` occurs in `s` at position `i` (executable).
pub fn matches_at(s: &[char], p: &[char], i: usize) -> (r: bool)
    ensures
        r == occurs_at(s@, p@, i as int),
{
    if i > s.len() || p.len() > s.len() - i {
        return false;
    }
    let mut k: usize = 0;
    while k < p.len()
        invariant
            i + p@.len() <= s@.len(),
            s@.len() == s.len(),
            k <= p@.len(),
            forall|t: int| 0 <= t < k ==> s@[i + t] == p@[t],
        decreases p@.len() - k,
    {
        if s[i + k] != p[k] {
            assert(s@.subrange(i as int, i + p@.len())[k as int] != p@[k as int]);
            return false;
        }
        k = k + 1;
    }
    assert(s@.subrange(i as int, i + p@.len()) =~= p@);
    true
}

/// Index of the first occurrence of `p` in `s` at or after `from`.
pub fn find_sub_from(s: &[char], p: &[char], from: usize) -> (r: Option<usize>)
    requires
        from <= s@.len(),
    ensures
        match r {
            Some(j) => from <= j && j + p@.len() <= s@.len() && find_sub(s@.skip(from as int), p@) == j - from,
            None => find_sub(s@.skip(from as int), p@) == -1,
        },
{
    let mut i = from;
    loop
        invariant
            from <= i <= s@.len(),
            find_sub(s@.skip(from as int), p@) == (if find_sub(s@.skip(i as int), p@) < 0 {
                -1
            } else {
                find_sub(s@.skip(i as int), p@) + (i - from)
            }),
        decreases s@.len() - i,
    {
        let ghost rest = s@.skip(i as int);
        if p.len() > s.len() - i {
            return None;
        }
        if matches_at(s, p, i) {
            assert(rest.take(p@.len() as int) == s@.subrange(i as int, i + p@.len()));
            return Some(i);
        }
        assert(rest.take(p@.len() as int) == s@.subrange(i as int, i + p@.len()));
        if i == s.len() {
            return None;
        }
        assert(rest.drop_first() == s@.skip(i + 1));
        i = i + 1;
    }
}

/// The `Debug` rendering of a string (quoted and escaped, as `{:?}` prints it).
pub uninterp spec fn debug_text(s: Seq<char>) -> Seq<char>;

/// Whether `c` is an ASCII letter, digit or `_`.
pub open spec fn is_word_char(c: char) -> bool {
    ('a' <= c && c <= 'z') || ('A' <= c && c <= 'Z') || ('0' <= c && c <= '9') || c == '_'
}

/// Whether every character of `s` is an ASCII letter, digit or `_`.
pub open spec fn is_word(s: Seq<char>) -> bool {
    forall|i: int| 0 <= i < s.len() ==> is_word_char(#[trigger] s[i])
}

/// `s` in double quotes.
pub open spec fn quoted(s: Seq<char>) -> Seq<char> {
    seq!['"'] + s + seq!['"']
}

/// The `Debug` rendering of `s` as far as it is stated: a word of ASCII
/// letters, digits and `_` renders as itself in double quotes.
pub open spec fn debug_render(s: Seq<char>) -> Seq<char> {
    if is_word(s) {
        quoted(s)
    } else {
        debug_text(s)
    }
}

/// Renders `s` with `{:?}`, as `format!` does for a `&str`: the text in
/// double quotes, with quotes, backslashes and characters that are not
/// printable escaped; ASCII letters, digits and `_` are printed as they
/// are.
#[verifier::external_body]
pub(crate) fn debug_str(s: &str) -> (r: String)
    ensures
        r@ == debug_text(s@),
        is_word(s@) ==> r@ == quoted(s@),
{
    format!("{:?}", s)
}

} // verus!

verus! {

/// The pieces of `s` between occurrences of `c` (`str::split` with a char).
pub open spec fn split_char(s: Seq<char>, c: char) -> Seq<Seq<char>>
    decreases s.len(),
{
    let i = index_of(s, c);
    if i < 0 {
        seq![s]
    } else {
        proof {
            lemma_index_of(s, c);
        }
        seq![s.take(i)] + split_char(s.skip(i + 1), c)
    }
}

/// Whether `c` is an ASCII decimal digit.
pub open spec fn is_digit(c: char) -> bool {
    '0' <= c && c <= '9'
}

/// Whether every character of `s` is an ASCII decimal digit.
pub open spec fn all_digits(s: Seq<char>) -> bool {
    forall|k: int| 0 <= k < s.len() ==> is_digit(#[trigger] s[k])
}

/// The value of a string of decimal digits.
pub open spec fn digits_value(s: Seq<char>) -> int
    decreases s.len(),
{
    if s.len() == 0 {
        0
    } else {
        digits_value(s.drop_last()) * 10 + (s.last() as int - 48)
    }
}

/// The integer that `str::parse` reads from `s`: an optional `+` or `-`
/// followed by one or more ASCII digits; `None` when `s` has another shape.
pub open spec fn parse_int(s: Seq<char>) -> Option<int> {
    if s.len() > 0 && (s[0] == '+' || s[0] == '-') {
        let d = s.drop_first();
        if d.len() > 0 && all_digits(d) {
            Some(if s[0] == '-' { -digits_value(d) } else { digits_value(d) })
        } else {
            None
        }
    } else if s.len() > 0 && all_digits(s) {
        Some(digits_value(s))
    } else {
        None
    }
}

/// `str::parse::<i64>`: the parsed value when it fits in an `i64`.
pub open spec fn parse_i64_spec(s: Seq<char>) -> Option<i64> {
    match parse_int(s) {
        Some(v) => if i64::MIN <= v <= i64::MAX {
            Some(v as i64)
        } else {
            None
        },
        None => None,
    }
}

pub(crate) proof fn lemma_digits_mono(s: Seq<char>, k: int)
    requires
        all_digits(s),
        0 <= k <= s.len(),
    ensures
        0 <= digits_value(s.take(k)) <= digits_value(s),
    decreases s.len(),
{
    if s.len() > 0 {
        assert(all_digits(s.drop_last())) by {
            assert forall|t: int| 0 <= t < s.drop_last().len() implies is_digit(#[trigger] s.drop_last()[t]) by {
                assert(s.drop_last()[t] == s[t]);
            }
        }
        assert(is_digit(s[s.len() - 1]));
        if k < s.len() {
            lemma_digits_mono(s.drop_last(), k);
            assert(s.drop_last().take(k) == s.take(k));
        } else {
            assert(s.take(k) == s);
            lemma_digits_mono(s.drop_last(), k - 1);
        }
    } else {
        assert(s.take(k) == s);
    }
}

/// `str::parse::<i64>` over characters.
pub fn parse_i64(s: &[char]) -> (r: Option<i64>)
    ensures
        r == parse_i64_spec(s@),
{
    let n = s.len();
    if n == 0 {
        return None;
    }
    let neg = s[0] == '-';
    let start: usize = if s[0] == '+' || s[0] == '-' { 1 } else { 0 };
    if start == n {
        return None;
    }
    let ghost d = s@.skip(start as int);
    let limit: u64 = if neg { 9223372036854775808u64 } else { 9223372036854775807u64 };
    let mut acc: u64 = 0;
    let mut i = start;
    while i < n
        invariant
            start <= i <= n,
            n == s@.len(),
            start < n,
            d == s@.skip(start as int),
            (start == 1) == (s@[0] == '+' || s@[0] == '-'),
            start <= 1,
            neg == (s@[0] == '-'),
            limit == (if neg { 9223372036854775808u64 } else { 9223372036854775807u64 }),
            all_digits(d.take(i - start)),
            acc as int == digits_value(d.take(i - start)),
            acc <= limit,
            limit <= 9223372036854775808u64,
        decreases n - i,
    {
        let c = s[i];
        assert(d[i - start] == c);
        if !(c >= '0' && c <= '9') {
            assert(!all_digits(d));
            assert(start == 1 ==> d == s@.drop_first());
            assert(start == 0 ==> d == s@);
            return None;
        }
        let dig: u64 = (c as u32 - 48) as u64;
        assert(dig <= 9);
        assert(d.take(i - start + 1).drop_last() == d.take(i - start));
        assert(d.take(i - start + 1).last() == c);
        assert(all_digits(d.take(i - start + 1))) by {
            assert forall|t: int| 0 <= t < d.take(i - start + 1).len() implies is_digit(#[trigger] d.take(i - start + 1)[t]) by {
                if t < i - start {
                    assert(d.take(i - start + 1)[t] == d.take(i - start)[t]);
                }
            }
        }
        if acc > (limit - dig) / 10 {
            // the prefix already exceeds the representable range
            proof {
                assert(digits_value(d.take(i - start + 1)) == acc * 10 + dig);
                assert(acc * 10 + dig > limit) by (nonlinear_arith)
                    requires acc > (limit - dig) / 10, dig <= 9, limit >= 9;
                if all_digits(d) {
                    lemma_digits_mono(d, i - start + 1);
                    assert(digits_value(d) > limit);
                }
                assert(start == 1 ==> d == s@.drop_first());
                assert(start == 0 ==> d == s@);
                assert(d.len() > 0);
            }
            return None;
        }
        assert(acc * 10 + dig <= limit) by (nonlinear_arith)
            requires acc <= (limit - dig) / 10, dig <= 9, limit >= 9;
        acc = acc * 10 + dig;
        i = i + 1;
    }
    assert(d.take(n - start) == d);
    assert(start == 1 ==> d == s@.drop_first());
    assert(start == 0 ==> d == s@);
    if neg {
        if acc == 9223372036854775808u64 {
            Some(i64::MIN)
        } else {
            Some(-(acc as i64))
        }
    } else {
        Some(acc as i64)
    }
}

} // verus!

verus! {

/// Last index at which `p` occurs in `s`, or `-1` (`str::rfind`).
pub open spec fn rfind_sub(s: Seq<char>, p: Seq<char>) -> int
    decreases s.len(),
{
    if s.len() < p.len() {
        -1
    } else if occurs_at(s, p, s.len() - p.len()) {
        s.len() - p.len()
    } else if s.len() == 0 {
        -1
    } else {
        rfind_sub(s.drop_last(), p)
    }
}

/// Index of the last occurrence of `p` in `s`.
pub fn rfind_sub_exec(s: &[char], p: &[char]) -> (r: Option<usize>)
    ensures
        match r {
            Some(j) => j + p@.len() <= s@.len() && rfind_sub(s@, p@) == j,
            None => rfind_sub(s@, p@) == -1,
        },
{
    if p.len() > s.len() {
        return None;
    }
    let mut end = s.len();
    assert(s@.take(end as int) == s@);
    loop
        invariant
            p@.len() <= end <= s@.len(),
            s@.len() == s.len(),
            rfind_sub(s@, p@) == rfind_sub(s@.take(end as int), p@),
        decreases end,
    {
        let ghost t = s@.take(end as int);
        let i = end - p.len();
        let hit = matches_at(s, p, i);
        assert(occurs_at(t, p@, i as int) == occurs_at(s@, p@, i as int)) by {
            assert(t.subrange(i as int, i + p@.len()) == s@.subrange(i as int, i + p@.len()));
        }
        if hit {
            return Some(i);
        }
        if end == p.len() || end == 0 {
            if end > 0 {
                assert(t.drop_last().len() < p@.len());
                assert(rfind_sub(t.drop_last(), p@) == -1);
            } else {
                assert(occurs_at(t, p@, 0)) by {
                    assert(t.subrange(0, 0) == p@);
                }
            }
            return None;
        }
        assert(t.drop_last() == s@.take(end - 1));
        end = end - 1;
    }
}

/// The part of `s` after the last `sep` (all of `s` when `sep` does not
/// occur): the first item of `s.rsplit(sep)`.
pub open spec fn after_last(s: Seq<char>, sep: Seq<char>) -> Seq<char> {
    let j = rfind_sub(s, sep);
    if j < 0 {
        s
    } else {
        s.skip(j + sep.len())
    }
}

/// Executable [`after_last`].
pub fn after_last_exec(s: &[char], sep: &[char]) -> (r: Vec<char>)
    ensures
        r@ == after_last(s@, sep@),
{
    match rfind_sub_exec(s, sep) {
        Some(j) => {
            assert(s@.len() == s.len());
            assert(s@.subrange(j + sep@.len(), s@.len() as int) == s@.skip(j + sep@.len()));
            slice_range(s, j + sep.len(), s.len())
        },
        None => {
            assert(s@.subrange(0, s@.len() as int) == s@);
            slice_range(s, 0, s.len())
        },
    }
}

} // verus!

verus! {

/// The character sequences of a list of character vectors.
pub open spec fn pieces_view(v: Seq<Vec<char>>) -> Seq<Seq<char>> {
    v.map_values(|p: Vec<char>| p@)
}

/// The pieces of `s` between occurrences of `c` (executable [`split_char`]).
pub fn split_exec(s: &[char], c: char) -> (r: Vec<Vec<char>>)
    ensures
        pieces_view(r@) == split_char(s@, c),
{
    let mut out: Vec<Vec<char>> = Vec::new();
    let mut i: usize = 0;
    assert(s@.skip(0) =~= s@);
    assert(pieces_view(out@) + split_char(s@.skip(0), c) =~= split_char(s@, c));
    loop
        invariant
            i <= s@.len(),
            s@.len() == s.len(),
            split_char(s@, c) == pieces_view(out@) + split_char(s@.skip(i as int), c),
        decreases s@.len() - i,
    {
        let ghost rest = s@.skip(i as int);
        match find_char_from(s, c, i) {
            Some(j) => {
                let part = slice_range(s, i, j);
                proof {
                    lemma_index_of(rest, c);
                    assert(rest.take(j - i) =~= part@);
                    assert(rest.skip(j - i + 1) =~= s@.skip(j + 1));
                }
                let ghost before = pieces_view(out@);
                out.push(part);
                assert(pieces_view(out@) =~= before.push(part@));
                assert(split_char(s@, c) =~= pieces_view(out@) + split_char(s@.skip(j + 1), c));
                i = j + 1;
            },
            None => {
                let part = slice_range(s, i, s.len());
                assert(rest =~= part@);
                let ghost before = pieces_view(out@);
                out.push(part);
                assert(pieces_view(out@) =~= before.push(part@));
                return out;
            },
        }
    }
}

/// `l` without one trailing carriage return.
pub open spec fn strip_cr(l: Seq<char>) -> Seq<char> {
    if l.len() > 0 && l.last() == '\r' {
        l.drop_last()
    } else {
        l
    }
}

/// The lines of `s` as `str::lines` yields them: split at `\n`, a `\r`
/// before a `\n` dropped, and no final empty line.
pub open spec fn str_lines(s: Seq<char>) -> Seq<Seq<char>> {
    let p = split_char(s, '\n');
    let n = p.len();
    let body = Seq::new((n - 1) as nat, |k: int| strip_cr(p[k]));
    if n == 0 || p[n - 1].len() == 0 {
        body
    } else {
        body.push(p[n - 1])
    }
}

proof fn lemma_split_char_nonempty(s: Seq<char>, c: char)
    ensures
        split_char(s, c).len() >= 1,
    decreases s.len(),
{
    let i = index_of(s, c);
    if i >= 0 {
        lemma_index_of(s, c);
        lemma_split_char_nonempty(s.skip(i + 1), c);
    }
}

/// `l` without one trailing carriage return (executable).
pub fn strip_cr_exec(l: &Vec<char>) -> (r: Vec<char>)
    ensures
        r@ == strip_cr(l@),
{
    if l.len() > 0 && l[l.len() - 1] == '\r' {
        slice_range(l.as_slice(), 0, l.len() - 1)
    } else {
        slice_range(l.as_slice(), 0, l.len())
    }
}

/// The lines of `s` (`str::lines`).
pub fn lines_exec(s: &[char]) -> (r: Vec<Vec<char>>)
    ensures
        pieces_view(r@) == str_lines(s@),
{
    let pieces = split_exec(s, '\n');
    proof {
        lemma_split_char_nonempty(s@, '\n');
    }
    let ghost p = split_char(s@, '\n');
    let n = pieces.len();
    let mut out: Vec<Vec<char>> = Vec::new();
    let mut k: usize = 0;
    while k + 1 < n
        invariant
            pieces_view(pieces@) == p,
            n == p.len(),
            n >= 1,
            k + 1 <= n,
            pieces_view(out@) == Seq::new(k as nat, |q: int| strip_cr(p[q])),
        decreases n - k,
    {
        let line = strip_cr_exec(&pieces[k]);
        let ghost before = pieces_view(out@);
        let ghost lv = line@;
        out.push(line);
        assert(pieces_view(out@) =~= before.push(lv));
        assert(p[k as int] == pieces@[k as int]@);
        assert(pieces_view(out@) =~= Seq::new((k + 1) as nat, |q: int| strip_cr(p[q])));
        k = k + 1;
    }
    let ghost body = Seq::new((n - 1) as nat, |q: int| strip_cr(p[q]));
    assert(pieces_view(out@) == body);
    assert(p[n - 1] == pieces@[n - 1]@);
    if pieces[n - 1].len() > 0 {
        let last = slice_range(pieces[n - 1].as_slice(), 0, pieces[n - 1].len());
        let ghost before = pieces_view(out@);
        let ghost lv = last@;
        assert(lv =~= pieces@[n - 1]@);
        out.push(last);
        assert(pieces_view(out@) =~= before.push(lv));
        assert(pieces_view(out@) == body.push(p[n - 1]));
    }
    assert(pieces_view(out@) == str_lines(s@));
    out
}

/// `s` with every leading copy of the non-empty `p` removed
/// (`str::trim_start_matches`).
pub open spec fn strip_prefixes(s: Seq<char>, p: Seq<char>) -> Seq<char>
    decreases s.len(),
{
    if p.len() > 0 && p.len() <= s.len() && s.take(p.len() as int) == p {
        strip_prefixes(s.skip(p.len() as int), p)
    } else {
        s
    }
}

/// `s` with every trailing copy of the non-empty `p` removed
/// (`str::trim_end_matches`).
pub open spec fn strip_suffixes(s: Seq<char>, p: Seq<char>) -> Seq<char>
    decreases s.len(),
{
    if p.len() > 0 && p.len() <= s.len() && s.skip(s.len() - p.len()) == p {
        strip_suffixes(s.take(s.len() - p.len()), p)
    } else {
        s
    }
}

/// Executable [`strip_prefixes`] on the range `s[from..]`.
pub fn strip_prefixes_exec(s: &[char], p: &[char]) -> (r: Vec<char>)
    requires
        p@.len() > 0,
    ensures
        r@ == strip_prefixes(s@, p@),
{
    let mut i: usize = 0;
    assert(s@.skip(0) =~= s@);
    while p.len() <= s.len() - i && matches_at(s, p, i)
        invariant
            i <= s@.len(),
            s@.len() == s.len(),
            p@.len() > 0,
            strip_prefixes(s@, p@) == strip_prefixes(s@.skip(i as int), p@),
        decreases s@.len() - i,
    {
        let ghost rest = s@.skip(i as int);
        assert(rest.take(p@.len() as int) =~= s@.subrange(i as int, i + p@.len()));
        assert(rest.skip(p@.len() as int) =~= s@.skip(i + p@.len()));
        i = i + p.len();
    }
    let ghost rest = s@.skip(i as int);
    if p.len() <= s.len() - i {
        assert(rest.take(p@.len() as int) =~= s@.subrange(i as int, i + p@.len()));
    }
    assert(s@.subrange(i as int, s@.len() as int) =~= rest);
    slice_range(s, i, s.len())
}

/// Executable [`strip_suffixes`].
pub fn strip_suffixes_exec(s: &[char], p: &[char]) -> (r: Vec<char>)
    requires
        p@.len() > 0,
    ensures
        r@ == strip_suffixes(s@, p@),
{
    let mut end: usize = s.len();
    assert(s@.take(end as int) =~= s@);
    while p.len() <= end && matches_at(s, p, end - p.len())
        invariant
            end <= s@.len(),
            s@.len() == s.len(),
            p@.len() > 0,
            strip_suffixes(s@, p@) == strip_suffixes(s@.take(end as int), p@),
        decreases end,
    {
        let ghost t = s@.take(end as int);
        assert(t.skip(end - p@.len()) =~= s@.subrange(end - p@.len(), end as int));
        assert(t.take(end - p@.len()) =~= s@.take(end - p@.len()));
        end = end - p.len();
    }
    let ghost t = s@.take(end as int);
    if p.len() <= end {
        assert(t.skip(end - p@.len()) =~= s@.subrange(end - p@.len(), end as int));
    }
    slice_range(s, 0, end)
}

/// Whether `s` ends with `c`.
pub open spec fn ends_with_char(s: Seq<char>, c: char) -> bool {
    s.len() > 0 && s.last() == c
}

/// Join texts with a separator.
pub open spec fn join_lines(parts: Seq<Seq<char>>, sep: Seq<char>) -> Seq<char>
    decreases parts.len(),
{
    if parts.len() == 0 {
        seq![]
    } else if parts.len() == 1 {
        parts[0]
    } else {
        join_lines(parts.drop_last(), sep) + sep + parts.last()
    }
}

/// Executable [`join_lines`] over character vectors.
pub fn join_pieces(parts: &Vec<Vec<char>>, sep: &[char]) -> (r: Vec<char>)
    ensures
        r@ == join_lines(pieces_view(parts@), sep@),
{
    let ghost ps = pieces_view(parts@);
    let mut out: Vec<char> = Vec::new();
    let mut i: usize = 0;
    while i < parts.len()
        invariant
            i <= parts@.len(),
            ps == pieces_view(parts@),
            out@ == join_lines(ps.take(i as int), sep@),
        decreases parts@.len() - i,
    {
        if i > 0 {
            let mut k: usize = 0;
            let ghost o = out@;
            while k < sep.len()
                invariant
                    k <= sep@.len(),
                    out@ == o + sep@.take(k as int),
                decreases sep@.len() - k,
            {
                out.push(sep[k]);
                assert(sep@.take(k + 1) =~= sep@.take(k as int).push(sep@[k as int]));
                k = k + 1;
            }
            assert(sep@.take(k as int) =~= sep@);
        }
        let ghost o2 = out@;
        let mut k: usize = 0;
        while k < parts[i].len()
            invariant
                i < parts@.len(),
                k <= parts@[i as int]@.len(),
                out@ == o2 + parts@[i as int]@.take(k as int),
            decreases parts@[i as int]@.len() - k,
        {
            out.push(parts[i][k]);
            assert(parts@[i as int]@.take(k + 1) =~= parts@[i as int]@.take(k as int).push(
                parts@[i as int]@[k as int],
            ));
            k = k + 1;
        }
        assert(parts@[i as int]@.take(k as int) =~= parts@[i as int]@);
        proof {
            assert(ps.take(i + 1).drop_last() =~= ps.take(i as int));
            assert(ps[i as int] == parts@[i as int]@);
            if i == 0 {
                assert(ps.take(0) =~= Seq::<Seq<char>>::empty());
                assert(out@ =~= ps[0]);
            } else {
                assert(out@ =~= join_lines(ps.take(i as int), sep@) + sep@ + ps[i as int]);
            }
        }
        i = i + 1;
    }
    assert(ps.take(i as int) =~= ps);
    out
}

} // verus!

verus! {

/// The character sequences of a list of strings.
pub open spec fn strs(v: Seq<String>) -> Seq<Seq<char>> {
    v.map_values(|s: String| s@)
}

/// A copy of a list of strings.
pub fn copy_strings(v: &Vec<String>) -> (r: Vec<String>)
    ensures
        strs(r@) == strs(v@),
{
    let mut out: Vec<String> = Vec::new();
    let mut i: usize = 0;
    while i < v.len()
        invariant
            i <= v@.len(),
            strs(out@) == strs(v@).take(i as int),
        decreases v@.len() - i,
    {
        let ghost before = out@;
        out.push(v[i].clone());
        assert(strs(out@) =~= strs(before).push(v@[i as int]@));
        assert(strs(v@).take(i + 1) =~= strs(v@).take(i as int).push(v@[i as int]@));
        i = i + 1;
    }
    assert(strs(v@).take(i as int) =~= strs(v@));
    out
}

/// ASCII lowercase of one character (`char::to_ascii_lowercase`).
pub open spec fn ascii_lower(c: char) -> char {
    if 'A' <= c && c <= 'Z' {
        ((c as u32) + 32) as char
    } else {
        c
    }
}

/// ASCII lowercase of a text (`str::to_ascii_lowercase`).
pub open spec fn ascii_lower_str(s: Seq<char>) -> Seq<char> {
    s.map_values(|c: char| ascii_lower(c))
}

/// Executable [`ascii_lower_str`].
pub fn to_ascii_lower(s: &[char]) -> (r: Vec<char>)
    ensures
        r@ == ascii_lower_str(s@),
{
    let mut out: Vec<char> = Vec::new();
    let mut i: usize = 0;
    while i < s.len()
        invariant
            i <= s@.len(),
            out@ == ascii_lower_str(s@).take(i as int),
        decreases s@.len() - i,
    {
        let c = s[i];
        let l = if 'A' <= c && c <= 'Z' {
            ((c as u8) + 32) as char
        } else {
            c
        };
        out.push(l);
        assert(ascii_lower_str(s@).take(i + 1) =~= ascii_lower_str(s@).take(i as int).push(
            ascii_lower(s@[i as int]),
        ));
        i = i + 1;
    }
    assert(ascii_lower_str(s@).take(i as int) =~= ascii_lower_str(s@));
    out
}

/// The decimal text of a natural number is digits reading back that
/// number.
pub proof fn lemma_nat_text(n: nat)
    ensures
        nat_text(n).len() >= 1,
        all_digits(nat_text(n)),
        digits_value(nat_text(n)) == n,
    decreases n,
{
    let d = (n % 10) as int;
    assert(digit_char(d) as int == d + 48);
    let t = nat_text(n);
    if n >= 10 {
        lemma_nat_text(n / 10);
        assert(t.drop_last() =~= nat_text(n / 10));
        assert(t.last() == digit_char(d));
        assert(digits_value(t) == digits_value(nat_text(n / 10)) * 10 + (t.last() as int - 48));
        assert((n / 10) * 10 + n % 10 == n);
        assert(digits_value(t) == n);
        assert forall|k: int| 0 <= k < t.len() implies is_digit(#[trigger] t[k]) by {
            if k < t.len() - 1 {
                assert(t[k] == nat_text(n / 10)[k]);
            }
        }
    } else {
        assert(t.drop_last() =~= Seq::<char>::empty());
        assert(n % 10 == n);
        assert(digits_value(Seq::<char>::empty()) == 0);
        assert(t.last() == digit_char(d));
        assert(digits_value(t) == n);
    }
}

/// The decimal text of an integer parses back to it.
pub proof fn lemma_parse_int_text(i: int)
    ensures
        parse_int(int_text(i)) == Some(i),
        int_text(i).len() >= 1,
        !is_ws(int_text(i)[0]),
        is_digit(int_text(i).last()),
        forall|k: int| 0 <= k < int_text(i).len() ==> is_digit(#[trigger] int_text(i)[k]) || (k == 0
            && int_text(i)[k] == '-'),
{
    if i < 0 {
        let n = (-i) as nat;
        lemma_nat_text(n);
        assert(int_text(i).drop_first() =~= nat_text(n));
        assert(int_text(i).last() == nat_text(n).last());
        assert forall|k: int| 0 <= k < int_text(i).len() implies is_digit(#[trigger] int_text(i)[k]) || (k
            == 0 && int_text(i)[k] == '-') by {
            if k > 0 {
                assert(int_text(i)[k] == nat_text(n)[k - 1]);
            }
        }
    } else {
        lemma_nat_text(i as nat);
        assert(is_digit(int_text(i)[0]));
        assert(is_digit(int_text(i)[int_text(i).len() - 1]));
    }
}

/// `index_of` finds the first position holding the character.
pub proof fn lemma_index_of_first(s: Seq<char>, c: char, k: int)
    requires
        0 <= k < s.len(),
        s[k] == c,
        forall|j: int| 0 <= j < k ==> s[j] != c,
    ensures
        index_of(s, c) == k,
{
    lemma_index_of(s, c);
}

/// `index_of` is `-1` when the character does not occur.
pub proof fn lemma_index_of_absent(s: Seq<char>, c: char)
    requires
        forall|j: int| 0 <= j < s.len() ==> s[j] != c,
    ensures
        index_of(s, c) == -1,
{
    lemma_index_of(s, c);
}

/// `find_sub` finds the first position where the pattern occurs.
pub proof fn lemma_find_sub_first(s: Seq<char>, p: Seq<char>, k: int)
    requires
        occurs_at(s, p, k),
        forall|j: int| 0 <= j < k ==> !occurs_at(s, p, j),
    ensures
        find_sub(s, p) == k,
    decreases s.len(),
{
    if k == 0 {
        assert(s.take(p.len() as int) =~= s.subrange(0, p.len() as int));
    } else {
        assert(!occurs_at(s, p, 0));
        assert(s.take(p.len() as int) =~= s.subrange(0, p.len() as int));
        let t = s.drop_first();
        assert forall|j: int| 0 <= j < k - 1 implies !occurs_at(t, p, j) by {
            assert(!occurs_at(s, p, j + 1));
            if j + p.len() <= t.len() {
                assert(t.subrange(j, j + p.len()) =~= s.subrange(j + 1, j + 1 + p.len()));
            }
        }
        assert(t.subrange(k - 1, k - 1 + p.len()) =~= s.subrange(k, k + p.len()));
        lemma_find_sub_first(t, p, k - 1);
    }
}

/// `find_sub` is `-1` when the pattern does not occur.
pub proof fn lemma_find_sub_absent(s: Seq<char>, p: Seq<char>)
    requires
        p.len() > 0,
        forall|j: int| 0 <= j < s.len() ==> !occurs_at(s, p, j),
    ensures
        find_sub(s, p) == -1,
    decreases s.len(),
{
    if s.len() >= p.len() {
        assert(!occurs_at(s, p, 0));
        assert(s.take(p.len() as int) =~= s.subrange(0, p.len() as int));
        let t = s.drop_first();
        assert forall|j: int| 0 <= j < t.len() implies !occurs_at(t, p, j) by {
            assert(!occurs_at(s, p, j + 1));
            if j + p.len() <= t.len() {
                assert(t.subrange(j, j + p.len()) =~= s.subrange(j + 1, j + 1 + p.len()));
            }
        }
        lemma_find_sub_absent(t, p);
    }
}

/// A text whose first and last characters are not whitespace trims to
/// itself.
pub proof fn lemma_trim_unchanged(s: Seq<char>)
    requires
        s.len() > 0,
        !is_ws(s[0]),
        !is_ws(s.last()),
    ensures
        trim(s) == s,
{
}

} // verus!
