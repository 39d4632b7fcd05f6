//! String helpers the capture and query rules are written with: character
//! sequences, lower-case hex, decimal numerals, `u32` parsing and the
//! `LIKE` pattern match that the history search uses.

use vstd::prelude::*;

verus! {

/// The characters of `s`, in order.
pub(crate) fn chars_of(s: &str) -> (res: Vec<char>)
    ensures
        res@ == s@,
{
    let mut out: Vec<char> = Vec::new();
    for c in it: s.chars()
        invariant
            it.seq() == s@,
            out@ == s@.take(it.index() as int),
    {
        out.push(c);
        assert(s@.take(it.index() + 1) =~= s@.take(it.index() as int).push(c));
    }
    assert(out@ =~= s@);
    out
}

/// The string made of the characters `cs`, in order.
///
/// Trusted: collects the slice's characters into a `String` through
/// `FromIterator<&char>`, which std documents as appending each character.
#[verifier::external_body]
pub(crate) fn string_from_chars(cs: &[char]) -> (res: String)
    ensures
        res@ == cs@,
{
    cs.iter().collect()
}

// ---------------------------------------------------------------- hex

/// The lower-case hex digit for a value below 16.
pub open spec fn hex_digit(n: int) -> char {
    if n < 10 {
        ((n + 48) as u32) as char
    } else {
        ((n + 87) as u32) as char
    }
}

/// Lower-case hex encoding: two digits per byte, high nibble first.
pub open spec fn hex_lower(bytes: Seq<u8>) -> Seq<char>
    decreases bytes.len(),
{
    if bytes.len() == 0 {
        Seq::empty()
    } else {
        hex_lower(bytes.drop_last()) + seq![
            hex_digit(bytes.last() as int / 16),
            hex_digit(bytes.last() as int % 16),
        ]
    }
}

pub proof fn lemma_hex_lower_len(bytes: Seq<u8>)
    ensures
        hex_lower(bytes).len() == 2 * bytes.len(),
    decreases bytes.len(),
{
    if bytes.len() > 0 {
        lemma_hex_lower_len(bytes.drop_last());
    }
}

fn hex_char(n: u8) -> (c: char)
    requires
        n < 16,
    ensures
        c == hex_digit(n as int),
{
    let table: [char; 16] = [
        '0', '1', '2', '3', '4', '5', '6', '7', '8', '9', 'a', 'b', 'c', 'd', 'e', 'f',
    ];
    let c = table[n as usize];
    assert(table@[n as int] == hex_digit(n as int)) by {
        assert(('0' as u32) == 48);
        assert(('a' as u32) == 97);
    }
    c
}

/// Lower-case hex encoding of `bytes`.
pub fn to_hex_lower(bytes: &[u8]) -> (res: String)
    ensures
        res@ == hex_lower(bytes@),
{
    let mut out: Vec<char> = Vec::new();
    let n = bytes.len();
    for i in 0..n
        invariant
            n == bytes@.len(),
            out@ == hex_lower(bytes@.take(i as int)),
    {
        let b = bytes[i];
        let hi = hex_char(b / 16);
        let lo = hex_char(b % 16);
        out.push(hi);
        out.push(lo);
        assert(bytes@.take(i + 1).drop_last() =~= bytes@.take(i as int));
    }
    assert(bytes@.take(n as int) =~= bytes@);
    string_from_chars(out.as_slice())
}

// ---------------------------------------------------------------- decimal

/// The character of a decimal digit.
pub open spec fn digit_char(d: int) -> char {
    ((d + 48) as u32) as char
}

/// The decimal numeral of `n`, without leading zeros ("0" for zero).
pub open spec fn decimal(n: nat) -> Seq<char>
    decreases n,
{
    if n < 10 {
        seq![digit_char(n as int)]
    } else {
        decimal(n / 10).push(digit_char((n % 10) as int))
    }
}

fn digit_to_char(d: usize) -> (c: char)
    requires
        d < 10,
    ensures
        c == digit_char(d as int),
{
    let table: [char; 10] = ['0', '1', '2', '3', '4', '5', '6', '7', '8', '9'];
    let c = table[d];
    assert(table@[d as int] == digit_char(d as int)) by {
        assert(('0' as u32) == 48);
    }
    c
}

/// Appends the decimal numeral of `n` to `out`.
pub fn push_decimal(n: usize, out: &mut Vec<char>)
    ensures
        final(out)@ == old(out)@ + decimal(n as nat),
    decreases n,
{
    if n < 10 {
        out.push(digit_to_char(n));
        assert(decimal(n as nat) =~= seq![digit_char(n as int)]);
    } else {
        push_decimal(n / 10, out);
        out.push(digit_to_char(n % 10));
    }
}

// ---------------------------------------------------------------- u32 parsing

pub open spec fn is_digit(c: char) -> bool {
    '0' <= c && c <= '9'
}

pub open spec fn all_digits(s: Seq<char>) -> bool {
    forall|i: int| 0 <= i < s.len() ==> is_digit(#[trigger] s[i])
}

/// The value of a numeral made of decimal digits.
pub open spec fn digits_value(s: Seq<char>) -> nat
    decreases s.len(),
{
    if s.len() == 0 {
        0
    } else {
        digits_value(s.drop_last()) * 10 + ((s.last() as u32) - 48) as nat
    }
}

/// The digits that `str::parse::<u32>` reads: the text after one optional
/// leading `+`.
pub open spec fn u32_digits(s: Seq<char>) -> Seq<char> {
    if s.len() > 0 && s[0] == '+' {
        s.drop_first()
    } else {
        s
    }
}

/// What `str::parse::<u32>` gives: the value of an optional `+` followed by at
/// least one decimal digit, when it fits in a `u32`; nothing otherwise.
pub open spec fn parse_u32_spec(s: Seq<char>) -> Option<u32> {
    let d = u32_digits(s);
    if d.len() > 0 && all_digits(d) && digits_value(d) <= u32::MAX {
        Some(digits_value(d) as u32)
    } else {
        None
    }
}

proof fn lemma_digits_value_grows(s: Seq<char>, k: int)
    requires
        0 <= k <= s.len(),
        all_digits(s),
    ensures
        digits_value(s.take(k)) <= digits_value(s),
    decreases s.len() - k,
{
    if k < s.len() {
        lemma_digits_value_grows(s, k + 1);
        assert(s.take(k + 1).drop_last() =~= s.take(k));
        assert(is_digit(s[k]));
    } else {
        assert(s.take(k) =~= s);
    }
}

/// Parses a decimal `u32` as `str::parse::<u32>` does.
pub fn parse_u32(s: &str) -> (res: Option<u32>)
    ensures
        res == parse_u32_spec(s@),
{
    let cs = chars_of(s);
    let n = cs.len();
    let mut start: usize = 0;
    if n > 0 && cs[0] == '+' {
        start = 1;
    }
    let ghost d = u32_digits(s@);
    assert(d =~= cs@.subrange(start as int, n as int));
    if start == n {
        return None;
    }
    let mut acc: u64 = 0;
    let mut i: usize = start;
    while i < n
        invariant
            start <= i <= n,
            n == cs@.len(),
            d =~= cs@.subrange(start as int, n as int),
            d == u32_digits(s@),
            start < n,
            acc == digits_value(d.take(i - start)),
            acc <= u32::MAX,
            all_digits(d.take(i - start)),
        decreases n - i,
    {
        let c = cs[i];
        if !('0' <= c && c <= '9') {
            assert(d[i - start] == c);
            assert(!is_digit(d[i - start]));
            assert(!all_digits(d));
            return None;
        }
        let v = (c as u32 - 48) as u64;
        let ghost k = (i - start) as int;
        assert(d.take(k + 1).drop_last() =~= d.take(k));
        assert(d.take(k + 1).last() == c);
        let next = acc * 10 + v;
        assert(digits_value(d.take(k + 1)) == digits_value(d.take(k)) * 10 + v);
        assert(all_digits(d.take(k + 1))) by {
            assert forall|j: int| 0 <= j < k + 1 implies is_digit(#[trigger] d.take(k + 1)[j]) by {
                if j < k {
                    assert(d.take(k + 1)[j] == d.take(k)[j]);
                }
            }
        }
        if next > (u32::MAX as u64) {
            assert(digits_value(d.take(k + 1)) > u32::MAX);
            // The numeral only grows from here on: either a later character
            // is not a digit, or the whole value is out of range.
            proof {
                if all_digits(d) {
                    lemma_digits_value_grows(d, k + 1);
                }
            }
            return None;
        }
        acc = next;
        i = i + 1;
    }
    assert(d.take(n - start) =~= d);
    Some(acc as u32)
}

// ---------------------------------------------------------------- LIKE

/// SQLite's case folding for `LIKE`: ASCII upper-case letters fold to lower
/// case, every other character stands for itself.
pub open spec fn like_fold(c: char) -> int {
    if 65 <= (c as u32) && (c as u32) <= 90 {
        (c as u32) + 32
    } else {
        c as u32 as int
    }
}

/// Whether `t[i..]` matches the pattern `p[j..]`, where `%` matches any run of
/// characters, `_` matches exactly one, and every other character matches
/// itself up to ASCII case.
pub open spec fn like_from(t: Seq<char>, p: Seq<char>, i: int, j: int) -> bool
    decreases p.len() - j, t.len() - i,
{
    if j >= p.len() {
        i >= t.len()
    } else if p[j] == '%' {
        like_from(t, p, i, j + 1) || (i < t.len() && like_from(t, p, i + 1, j))
    } else if i >= t.len() {
        false
    } else if p[j] == '_' {
        like_from(t, p, i + 1, j + 1)
    } else {
        like_fold(p[j]) == like_fold(t[i]) && like_from(t, p, i + 1, j + 1)
    }
}

/// `t LIKE p`, with SQLite's default (ASCII case-insensitive) rules and no
/// escape character.
pub open spec fn like_match(t: Seq<char>, p: Seq<char>) -> bool {
    like_from(t, p, 0, 0)
}

/// The pattern `'%' || s || '%'`: a match wherever `s` occurs.
pub open spec fn contains_pattern(s: Seq<char>) -> Seq<char> {
    seq!['%'] + s + seq!['%']
}

fn fold_char(c: char) -> (r: u32)
    ensures
        r == like_fold(c),
{
    let v = c as u32;
    if 65 <= v && v <= 90 {
        v + 32
    } else {
        v
    }
}

fn like_exec(t: &Vec<char>, p: &Vec<char>, i: usize, j: usize) -> (res: bool)
    requires
        i <= t@.len(),
        j <= p@.len(),
    ensures
        res == like_from(t@, p@, i as int, j as int),
    decreases p@.len() - j, t@.len() - i,
{
    if j >= p.len() {
        i >= t.len()
    } else if p[j] == '%' {
        if like_exec(t, p, i, j + 1) {
            true
        } else {
            i < t.len() && like_exec(t, p, i + 1, j)
        }
    } else if i >= t.len() {
        false
    } else if p[j] == '_' {
        like_exec(t, p, i + 1, j + 1)
    } else {
        fold_char(p[j]) == fold_char(t[i]) && like_exec(t, p, i + 1, j + 1)
    }
}

/// Whether `text` matches the `LIKE` pattern `pattern`.
pub fn like(text: &str, pattern: &Vec<char>) -> (res: bool)
    ensures
        res == like_match(text@, pattern@),
{
    let t = chars_of(text);
    like_exec(&t, pattern, 0, 0)
}

/// The pattern `'%' || s || '%'`.
pub fn make_contains_pattern(s: &str) -> (res: Vec<char>)
    ensures
        res@ == contains_pattern(s@),
{
    let inner = chars_of(s);
    let mut p: Vec<char> = Vec::new();
    p.push('%');
    let n = inner.len();
    for k in 0..n
        invariant
            n == inner@.len(),
            p@ == seq!['%'] + inner@.take(k as int),
    {
        p.push(inner[k]);
        assert(inner@.take(k + 1) =~= inner@.take(k as int).push(inner@[k as int]));
        assert(p@ =~= seq!['%'] + inner@.take(k + 1));
    }
    p.push('%');
    assert(inner@.take(n as int) =~= inner@);
    assert(p@ =~= contains_pattern(s@));
    p
}

} // verus!
