//! Character-sequence utilities that the rest of the crate builds on.

use vstd::prelude::*;
use vstd::string::*;

verus! {

/// Appends one character to a string (`String::push`).
#[verifier::external_body]
pub(crate) fn string_push(s: &mut String, c: char)
    ensures
        final(s)@ == old(s)@.push(c),
{
    s.push(c);
}

/// The characters of a string slice, in order.
pub fn chars_of(s: &str) -> (r: Vec<char>)
    ensures
        r@ == s@,
{
    let mut r: Vec<char> = Vec::new();
    for c in it: s.chars()
        invariant
            r@ == it.seq().take(it.index() as int),
            it.seq() == s@,
    {
        r.push(c);
    }
    r
}

/// Builds a string from a sequence of characters.
pub fn string_of(v: &Vec<char>) -> (r: String)
    ensures
        r@ == v@,
{
    let mut r = String::new();
    for i in 0..v.len()
        invariant
            r@ == v@.take(i as int),
    {
        string_push(&mut r, v[i]);
    }
    r
}

} // verus!

verus! {

// ---------------------------------------------------------------------------
// Digits and decimal numbers
// ---------------------------------------------------------------------------

pub open spec fn is_ascii_digit(c: char) -> bool {
    '0' <= c && c <= '9'
}

/// A decimal digit of Unicode (general category Nd, as of Unicode 15.0): the
/// characters that the pattern class `\d` of the `regex` crate matches.
/// Only the ASCII ones are digits to `str::parse`.
pub open spec fn is_decimal_digit(c: char) -> bool {
    ('\u{30}' <= c && c <= '\u{39}') ||
    ('\u{660}' <= c && c <= '\u{669}') ||
    ('\u{6f0}' <= c && c <= '\u{6f9}') ||
    ('\u{7c0}' <= c && c <= '\u{7c9}') ||
    ('\u{966}' <= c && c <= '\u{96f}') ||
    ('\u{9e6}' <= c && c <= '\u{9ef}') ||
    ('\u{a66}' <= c && c <= '\u{a6f}') ||
    ('\u{ae6}' <= c && c <= '\u{aef}') ||
    ('\u{b66}' <= c && c <= '\u{b6f}') ||
    ('\u{be6}' <= c && c <= '\u{bef}') ||
    ('\u{c66}' <= c && c <= '\u{c6f}') ||
    ('\u{ce6}' <= c && c <= '\u{cef}') ||
    ('\u{d66}' <= c && c <= '\u{d6f}') ||
    ('\u{de6}' <= c && c <= '\u{def}') ||
    ('\u{e50}' <= c && c <= '\u{e59}') ||
    ('\u{ed0}' <= c && c <= '\u{ed9}') ||
    ('\u{f20}' <= c && c <= '\u{f29}') ||
    ('\u{1040}' <= c && c <= '\u{1049}') ||
    ('\u{1090}' <= c && c <= '\u{1099}') ||
    ('\u{17e0}' <= c && c <= '\u{17e9}') ||
    ('\u{1810}' <= c && c <= '\u{1819}') ||
    ('\u{1946}' <= c && c <= '\u{194f}') ||
    ('\u{19d0}' <= c && c <= '\u{19d9}') ||
    ('\u{1a80}' <= c && c <= '\u{1a89}') ||
    ('\u{1a90}' <= c && c <= '\u{1a99}') ||
    ('\u{1b50}' <= c && c <= '\u{1b59}') ||
    ('\u{1bb0}' <= c && c <= '\u{1bb9}') ||
    ('\u{1c40}' <= c && c <= '\u{1c49}') ||
    ('\u{1c50}' <= c && c <= '\u{1c59}') ||
    ('\u{a620}' <= c && c <= '\u{a629}') ||
    ('\u{a8d0}' <= c && c <= '\u{a8d9}') ||
    ('\u{a900}' <= c && c <= '\u{a909}') ||
    ('\u{a9d0}' <= c && c <= '\u{a9d9}') ||
    ('\u{a9f0}' <= c && c <= '\u{a9f9}') ||
    ('\u{aa50}' <= c && c <= '\u{aa59}') ||
    ('\u{abf0}' <= c && c <= '\u{abf9}') ||
    ('\u{ff10}' <= c && c <= '\u{ff19}') ||
    ('\u{104a0}' <= c && c <= '\u{104a9}') ||
    ('\u{10d30}' <= c && c <= '\u{10d39}') ||
    ('\u{11066}' <= c && c <= '\u{1106f}') ||
    ('\u{110f0}' <= c && c <= '\u{110f9}') ||
    ('\u{11136}' <= c && c <= '\u{1113f}') ||
    ('\u{111d0}' <= c && c <= '\u{111d9}') ||
    ('\u{112f0}' <= c && c <= '\u{112f9}') ||
    ('\u{11450}' <= c && c <= '\u{11459}') ||
    ('\u{114d0}' <= c && c <= '\u{114d9}') ||
    ('\u{11650}' <= c && c <= '\u{11659}') ||
    ('\u{116c0}' <= c && c <= '\u{116c9}') ||
    ('\u{11730}' <= c && c <= '\u{11739}') ||
    ('\u{118e0}' <= c && c <= '\u{118e9}') ||
    ('\u{11950}' <= c && c <= '\u{11959}') ||
    ('\u{11c50}' <= c && c <= '\u{11c59}') ||
    ('\u{11d50}' <= c && c <= '\u{11d59}') ||
    ('\u{11da0}' <= c && c <= '\u{11da9}') ||
    ('\u{11f50}' <= c && c <= '\u{11f59}') ||
    ('\u{16a60}' <= c && c <= '\u{16a69}') ||
    ('\u{16ac0}' <= c && c <= '\u{16ac9}') ||
    ('\u{16b50}' <= c && c <= '\u{16b59}') ||
    ('\u{1d7ce}' <= c && c <= '\u{1d7ff}') ||
    ('\u{1e140}' <= c && c <= '\u{1e149}') ||
    ('\u{1e2f0}' <= c && c <= '\u{1e2f9}') ||
    ('\u{1e4f0}' <= c && c <= '\u{1e4f9}') ||
    ('\u{1e950}' <= c && c <= '\u{1e959}') ||
    ('\u{1fbf0}' <= c && c <= '\u{1fbf9}')
}

/// Whether `c` is a decimal digit of Unicode.
pub fn decimal_digit(c: char) -> (r: bool)
    ensures
        r == is_decimal_digit(c),
{
    ('\u{30}' <= c && c <= '\u{39}') ||
    ('\u{660}' <= c && c <= '\u{669}') ||
    ('\u{6f0}' <= c && c <= '\u{6f9}') ||
    ('\u{7c0}' <= c && c <= '\u{7c9}') ||
    ('\u{966}' <= c && c <= '\u{96f}') ||
    ('\u{9e6}' <= c && c <= '\u{9ef}') ||
    ('\u{a66}' <= c && c <= '\u{a6f}') ||
    ('\u{ae6}' <= c && c <= '\u{aef}') ||
    ('\u{b66}' <= c && c <= '\u{b6f}') ||
    ('\u{be6}' <= c && c <= '\u{bef}') ||
    ('\u{c66}' <= c && c <= '\u{c6f}') ||
    ('\u{ce6}' <= c && c <= '\u{cef}') ||
    ('\u{d66}' <= c && c <= '\u{d6f}') ||
    ('\u{de6}' <= c && c <= '\u{def}') ||
    ('\u{e50}' <= c && c <= '\u{e59}') ||
    ('\u{ed0}' <= c && c <= '\u{ed9}') ||
    ('\u{f20}' <= c && c <= '\u{f29}') ||
    ('\u{1040}' <= c && c <= '\u{1049}') ||
    ('\u{1090}' <= c && c <= '\u{1099}') ||
    ('\u{17e0}' <= c && c <= '\u{17e9}') ||
    ('\u{1810}' <= c && c <= '\u{1819}') ||
    ('\u{1946}' <= c && c <= '\u{194f}') ||
    ('\u{19d0}' <= c && c <= '\u{19d9}') ||
    ('\u{1a80}' <= c && c <= '\u{1a89}') ||
    ('\u{1a90}' <= c && c <= '\u{1a99}') ||
    ('\u{1b50}' <= c && c <= '\u{1b59}') ||
    ('\u{1bb0}' <= c && c <= '\u{1bb9}') ||
    ('\u{1c40}' <= c && c <= '\u{1c49}') ||
    ('\u{1c50}' <= c && c <= '\u{1c59}') ||
    ('\u{a620}' <= c && c <= '\u{a629}') ||
    ('\u{a8d0}' <= c && c <= '\u{a8d9}') ||
    ('\u{a900}' <= c && c <= '\u{a909}') ||
    ('\u{a9d0}' <= c && c <= '\u{a9d9}') ||
    ('\u{a9f0}' <= c && c <= '\u{a9f9}') ||
    ('\u{aa50}' <= c && c <= '\u{aa59}') ||
    ('\u{abf0}' <= c && c <= '\u{abf9}') ||
    ('\u{ff10}' <= c && c <= '\u{ff19}') ||
    ('\u{104a0}' <= c && c <= '\u{104a9}') ||
    ('\u{10d30}' <= c && c <= '\u{10d39}') ||
    ('\u{11066}' <= c && c <= '\u{1106f}') ||
    ('\u{110f0}' <= c && c <= '\u{110f9}') ||
    ('\u{11136}' <= c && c <= '\u{1113f}') ||
    ('\u{111d0}' <= c && c <= '\u{111d9}') ||
    ('\u{112f0}' <= c && c <= '\u{112f9}') ||
    ('\u{11450}' <= c && c <= '\u{11459}') ||
    ('\u{114d0}' <= c && c <= '\u{114d9}') ||
    ('\u{11650}' <= c && c <= '\u{11659}') ||
    ('\u{116c0}' <= c && c <= '\u{116c9}') ||
    ('\u{11730}' <= c && c <= '\u{11739}') ||
    ('\u{118e0}' <= c && c <= '\u{118e9}') ||
    ('\u{11950}' <= c && c <= '\u{11959}') ||
    ('\u{11c50}' <= c && c <= '\u{11c59}') ||
    ('\u{11d50}' <= c && c <= '\u{11d59}') ||
    ('\u{11da0}' <= c && c <= '\u{11da9}') ||
    ('\u{11f50}' <= c && c <= '\u{11f59}') ||
    ('\u{16a60}' <= c && c <= '\u{16a69}') ||
    ('\u{16ac0}' <= c && c <= '\u{16ac9}') ||
    ('\u{16b50}' <= c && c <= '\u{16b59}') ||
    ('\u{1d7ce}' <= c && c <= '\u{1d7ff}') ||
    ('\u{1e140}' <= c && c <= '\u{1e149}') ||
    ('\u{1e2f0}' <= c && c <= '\u{1e2f9}') ||
    ('\u{1e4f0}' <= c && c <= '\u{1e4f9}') ||
    ('\u{1e950}' <= c && c <= '\u{1e959}') ||
    ('\u{1fbf0}' <= c && c <= '\u{1fbf9}')
}

pub open spec fn digit_value(c: char) -> nat {
    (c as int - '0' as int) as nat
}

/// The character that writes the decimal digit `d`.
pub open spec fn digit_char(d: nat) -> char {
    if d == 0 { '0' }
    else if d == 1 { '1' }
    else if d == 2 { '2' }
    else if d == 3 { '3' }
    else if d == 4 { '4' }
    else if d == 5 { '5' }
    else if d == 6 { '6' }
    else if d == 7 { '7' }
    else if d == 8 { '8' }
    else { '9' }
}

/// The decimal notation of `n`, without leading zeros (`format!("{}", n)`).
pub open spec fn decimal(n: nat) -> Seq<char>
    decreases n,
{
    if n < 10 {
        seq![digit_char(n)]
    } else {
        decimal(n / 10).push(digit_char(n % 10))
    }
}

/// The decimal notation of `n` padded with zeros to at least two digits
/// (`format!("{:02}", n)`).
pub open spec fn decimal2(n: nat) -> Seq<char> {
    if n < 10 {
        seq!['0', digit_char(n)]
    } else {
        decimal(n)
    }
}

/// The value of a sequence of decimal digits.
pub open spec fn digits_value(s: Seq<char>) -> nat
    decreases s.len(),
{
    if s.len() == 0 {
        0
    } else {
        digits_value(s.drop_last()) * 10 + digit_value(s.last())
    }
}

pub open spec fn all_digits(s: Seq<char>) -> bool {
    forall|i: int| 0 <= i < s.len() ==> is_ascii_digit(#[trigger] s[i])
}

/// Why `str::parse` refuses a number.
#[derive(PartialEq, Eq, Structural, Debug, Clone, Copy)]
pub enum IntErrorKind {
    Empty,
    InvalidDigit,
    PosOverflow,
}

/// The message `str::parse` gives for each refusal.
pub open spec fn int_error_message(k: IntErrorKind) -> Seq<char> {
    match k {
        IntErrorKind::Empty => "cannot parse integer from empty string"@,
        IntErrorKind::InvalidDigit => "invalid digit found in string"@,
        IntErrorKind::PosOverflow => "number too large to fit in target type"@,
    }
}

/// Reads the digits `ds[i..]` after the value `acc` read so far, as
/// `str::parse` does: a character that is no digit is refused first, then a
/// value above `max`.
pub open spec fn scan_digits(ds: Seq<char>, i: int, acc: nat, max: nat) -> Result<nat, IntErrorKind>
    decreases ds.len() - i,
{
    if i < 0 || i >= ds.len() {
        Ok(acc)
    } else if !is_ascii_digit(ds[i]) {
        Err(IntErrorKind::InvalidDigit)
    } else if acc * 10 + digit_value(ds[i]) > max {
        Err(IntErrorKind::PosOverflow)
    } else {
        scan_digits(ds, i + 1, acc * 10 + digit_value(ds[i]), max)
    }
}

/// What `str::parse` gives for an unsigned integer type whose largest value
/// is `max`: an optional leading `+`, then ASCII digits.
pub open spec fn parse_uint(s: Seq<char>, max: nat) -> Result<nat, IntErrorKind> {
    if s.len() == 0 {
        Err(IntErrorKind::Empty)
    } else if (s[0] == '+' || s[0] == '-') && s.len() == 1 {
        Err(IntErrorKind::InvalidDigit)
    } else {
        let ds = if s[0] == '+' { s.drop_first() } else { s };
        scan_digits(ds, 0, 0, max)
    }
}

/// The message `str::parse` gives for a refused number.
pub fn int_error_text(k: IntErrorKind) -> (r: String)
    ensures
        r@ == int_error_message(k),
{
    match k {
        IntErrorKind::Empty => String::from_str("cannot parse integer from empty string"),
        IntErrorKind::InvalidDigit => String::from_str("invalid digit found in string"),
        IntErrorKind::PosOverflow => String::from_str("number too large to fit in target type"),
    }
}

/// Parses the characters of `s` as `str::parse` does for an unsigned type
/// whose largest value is `max`.
pub fn parse_uint_chars(s: &Vec<char>, max: u64) -> (r: Result<u64, IntErrorKind>)
    ensures
        match r {
            Ok(v) => parse_uint(s@, max as nat) == Ok::<nat, IntErrorKind>(v as nat),
            Err(k) => parse_uint(s@, max as nat) == Err::<nat, IntErrorKind>(k),
        },
        r matches Ok(v) ==> v <= max,
{
    if s.len() == 0 {
        return Err(IntErrorKind::Empty);
    }
    if (s[0] == '+' || s[0] == '-') && s.len() == 1 {
        return Err(IntErrorKind::InvalidDigit);
    }
    let start: usize = if s[0] == '+' { 1 } else { 0 };
    let ghost ds = if s@[0] == '+' { s@.drop_first() } else { s@ };
    assert(ds == s@.skip(start as int));
    let mut acc: u64 = 0;
    let mut i: usize = start;
    while i < s.len()
        invariant
            start <= i <= s.len(),
            start <= 1,
            ds == s@.skip(start as int),
            parse_uint(s@, max as nat) == scan_digits(ds, 0, 0, max as nat),
            acc <= max,
            scan_digits(ds, (i - start) as int, acc as nat, max as nat) == scan_digits(ds, 0, 0, max as nat),
        decreases s.len() - i,
    {
        let c = s[i];
        assert(ds[i - start] == c);
        if !('0' <= c && c <= '9') {
            assert(scan_digits(ds, (i - start) as int, acc as nat, max as nat) == Err::<nat, IntErrorKind>(IntErrorKind::InvalidDigit));
            return Err(IntErrorKind::InvalidDigit);
        }
        let d = (c as u64) - ('0' as u64);
        assert(d as nat == digit_value(c));
        if d > max || acc > (max - d) / 10 {
            assert(acc * 10 + d > max) by (nonlinear_arith)
                requires d > max || (d <= max && acc > (max - d) / 10);
            assert(scan_digits(ds, (i - start) as int, acc as nat, max as nat) == Err::<nat, IntErrorKind>(IntErrorKind::PosOverflow));
            return Err(IntErrorKind::PosOverflow);
        }
        assert(acc * 10 + d <= max) by (nonlinear_arith)
            requires d <= max, acc <= (max - d) / 10;
        acc = acc * 10 + d;
        i = i + 1;
    }
    Ok(acc)
}

fn digit_char_exec(d: u64) -> (c: char)
    requires
        d < 10,
    ensures
        c == digit_char(d as nat),
{
    if d == 0 { '0' }
    else if d == 1 { '1' }
    else if d == 2 { '2' }
    else if d == 3 { '3' }
    else if d == 4 { '4' }
    else if d == 5 { '5' }
    else if d == 6 { '6' }
    else if d == 7 { '7' }
    else if d == 8 { '8' }
    else { '9' }
}

/// Appends the decimal notation of `n`.
pub fn push_decimal(out: &mut Vec<char>, n: u64)
    ensures
        final(out)@ == old(out)@ + decimal(n as nat),
    decreases n,
{
    if n >= 10 {
        push_decimal(out, n / 10);
    }
    let c = digit_char_exec(n % 10);
    out.push(c);
    proof {
        if n < 10 {
            assert(n % 10 == n);
        }
    }
}

/// Appends the decimal notation of `n`, padded to two digits.
pub fn push_decimal2(out: &mut Vec<char>, n: u64)
    ensures
        final(out)@ == old(out)@ + decimal2(n as nat),
{
    if n < 10 {
        out.push('0');
        let c = digit_char_exec(n);
        out.push(c);
    } else {
        push_decimal(out, n);
    }
}

} // verus!

verus! {

// ---------------------------------------------------------------------------
// Searching, removing and splitting
// ---------------------------------------------------------------------------

/// `p` occurs in `s` starting at index `i`.
pub open spec fn occurs_at(s: Seq<char>, p: Seq<char>, i: int) -> bool {
    0 <= i && p.is_prefix_of(s.skip(i))
}

/// `p` occurs somewhere in `s` (`str::contains`).
pub open spec fn seq_contains(s: Seq<char>, p: Seq<char>) -> bool {
    exists|i: int| 0 <= i <= s.len() && #[trigger] occurs_at(s, p, i)
}

/// `s` with every occurrence of `c` removed (`str::replace(c, "")`).
pub open spec fn without_char(s: Seq<char>, c: char) -> Seq<char>
    decreases s.len(),
{
    if s.len() == 0 {
        s
    } else if s.last() == c {
        without_char(s.drop_last(), c)
    } else {
        without_char(s.drop_last(), c).push(s.last())
    }
}

/// `s` with the occurrences of `p` removed, matched from the left without
/// overlap (`str::replace(p, "")`).
pub open spec fn without_pattern(s: Seq<char>, p: Seq<char>) -> Seq<char>
    decreases s.len(),
{
    if p.len() == 0 || s.len() == 0 {
        s
    } else if p.is_prefix_of(s) {
        without_pattern(s.skip(p.len() as int), p)
    } else {
        seq![s[0]] + without_pattern(s.drop_first(), p)
    }
}

/// The pieces of `s` between the occurrences of the separator `sep`, matched
/// from the left (`str::split`). There is always at least one piece.
pub open spec fn split_by(s: Seq<char>, sep: Seq<char>) -> Seq<Seq<char>>
    decreases s.len(),
{
    if sep.len() == 0 || s.len() == 0 {
        seq![s]
    } else if sep.is_prefix_of(s) {
        seq![Seq::<char>::empty()] + split_by(s.skip(sep.len() as int), sep)
    } else {
        let rest = split_by(s.drop_first(), sep);
        rest.update(0, seq![s[0]] + rest[0])
    }
}

pub proof fn lemma_split_by_nonempty(s: Seq<char>, sep: Seq<char>)
    ensures
        split_by(s, sep).len() >= 1,
    decreases s.len(),
{
    if sep.len() == 0 || s.len() == 0 {
    } else if sep.is_prefix_of(s) {
        lemma_split_by_nonempty(s.skip(sep.len() as int), sep);
    } else {
        lemma_split_by_nonempty(s.drop_first(), sep);
    }
}

/// The views of a sequence of character vectors.
pub open spec fn views(v: Seq<Vec<char>>) -> Seq<Seq<char>> {
    v.map_values(|x: Vec<char>| x@)
}

/// Whether `p` occurs in `s` at index `i`.
pub fn occurs_at_exec(s: &Vec<char>, p: &Vec<char>, i: usize) -> (b: bool)
    requires
        i <= s.len(),
    ensures
        b == occurs_at(s@, p@, i as int),
{
    if p.len() > s.len() - i {
        return false;
    }
    let mut k: usize = 0;
    while k < p.len()
        invariant
            i + p.len() <= s.len(),
            k <= p.len(),
            forall|j: int| 0 <= j < k ==> s@[i + j] == p@[j],
        decreases p.len() - k,
    {
        if s[i + k] != p[k] {
            assert(s@.skip(i as int).subrange(0, p.len() as int)[k as int] != p@[k as int]);
            return false;
        }
        k = k + 1;
    }
    assert(p@ =~= s@.skip(i as int).subrange(0, p.len() as int));
    true
}

/// Whether `p` is a prefix of `s` (`str::starts_with`).
pub fn starts_with(s: &Vec<char>, p: &Vec<char>) -> (b: bool)
    ensures
        b == p@.is_prefix_of(s@),
{
    let b = occurs_at_exec(s, p, 0);
    assert(s@.skip(0) == s@);
    b
}

/// `p` ends `s`.
pub open spec fn is_suffix(p: Seq<char>, s: Seq<char>) -> bool {
    p.len() <= s.len() && s.subrange(s.len() - p.len(), s.len() as int) == p
}

/// Whether `p` ends `s` (`str::ends_with`).
pub fn ends_with(s: &Vec<char>, p: &Vec<char>) -> (b: bool)
    ensures
        b == is_suffix(p@, s@),
{
    if p.len() > s.len() {
        return false;
    }
    let start = s.len() - p.len();
    let b = occurs_at_exec(s, p, start);
    proof {
        let t = s@.skip(start as int);
        assert(t =~= s@.subrange(start as int, s@.len() as int));
        assert(t.subrange(0, p@.len() as int) =~= t);
    }
    b
}

/// Whether `p` occurs in `s` (`str::contains`).
pub fn contains(s: &Vec<char>, p: &Vec<char>) -> (b: bool)
    ensures
        b == seq_contains(s@, p@),
{
    let mut i: usize = 0;
    while i < s.len()
        invariant
            i <= s.len(),
            forall|j: int| 0 <= j < i ==> !occurs_at(s@, p@, j),
        decreases s.len() - i,
    {
        if occurs_at_exec(s, p, i) {
            return true;
        }
        i = i + 1;
    }
    occurs_at_exec(s, p, s.len())
}

/// `s` without the character `c` (`str::replace(c, "")`).
pub fn remove_char(s: &Vec<char>, c: char) -> (r: Vec<char>)
    ensures
        r@ == without_char(s@, c),
{
    let mut r: Vec<char> = Vec::new();
    for i in 0..s.len()
        invariant
            r@ == without_char(s@.take(i as int), c),
    {
        assert(s@.take(i + 1).drop_last() == s@.take(i as int));
        if s[i] != c {
            r.push(s[i]);
        }
    }
    assert(s@.take(s.len() as int) == s@);
    r
}

/// `s` without the occurrences of `p` (`str::replace(p, "")`).
pub fn remove_pattern(s: &Vec<char>, p: &Vec<char>) -> (r: Vec<char>)
    ensures
        r@ == without_pattern(s@, p@),
{
    let mut r: Vec<char> = Vec::new();
    if p.len() == 0 {
        for i in 0..s.len()
            invariant
                r@ == s@.take(i as int),
        {
            r.push(s[i]);
        }
        assert(s@.take(s.len() as int) == s@);
        return r;
    }
    let mut i: usize = 0;
    assert(s@.skip(0) == s@);
    while i < s.len()
        invariant
            p.len() > 0,
            i <= s.len(),
            r@ + without_pattern(s@.skip(i as int), p@) == without_pattern(s@, p@),
        decreases s.len() - i,
    {
        let ghost rest = s@.skip(i as int);
        if occurs_at_exec(s, p, i) {
            assert(rest.skip(p.len() as int) == s@.skip(i + p.len()));
            i = i + p.len();
        } else {
            assert(rest.drop_first() == s@.skip(i + 1));
            assert(rest[0] == s@[i as int]);
            let ghost old_r = r@;
            r.push(s[i]);
            assert(old_r + (seq![s@[i as int]] + without_pattern(s@.skip(i + 1), p@))
                == r@ + without_pattern(s@.skip(i + 1), p@));
            i = i + 1;
        }
    }
    assert(s@.skip(i as int).len() == 0);
    assert(r@ + s@.skip(i as int) == r@);
    r
}

/// Adds `c` in front of the first piece.
pub open spec fn prepend_first(c: Seq<char>, xs: Seq<Seq<char>>) -> Seq<Seq<char>> {
    xs.update(0, c + xs[0])
}

/// The pieces of `s` between occurrences of the non-empty separator `sep`
/// (`str::split`).
pub fn split(s: &Vec<char>, sep: &Vec<char>) -> (r: Vec<Vec<char>>)
    requires
        sep.len() > 0,
    ensures
        views(r@) == split_by(s@, sep@),
{
    let mut parts: Vec<Vec<char>> = Vec::new();
    let mut cur: Vec<char> = Vec::new();
    let mut i: usize = 0;
    assert(s@.skip(0) == s@);
    proof {
        lemma_split_by_nonempty(s@, sep@);
        let x = split_by(s@, sep@);
        assert(prepend_first(cur@, x) == x) by {
            assert(Seq::<char>::empty() + x[0] == x[0]);
        }
        assert(views(parts@) + x == x);
    }
    while i < s.len()
        invariant
            sep.len() > 0,
            i <= s.len(),
            views(parts@) + prepend_first(cur@, split_by(s@.skip(i as int), sep@)) == split_by(s@, sep@),
        decreases s.len() - i,
    {
        let ghost rest = s@.skip(i as int);
        if occurs_at_exec(s, sep, i) {
            let ghost tail = split_by(s@.skip(i + sep.len()), sep@);
            assert(rest.skip(sep.len() as int) == s@.skip(i + sep.len()));
            proof {
                lemma_split_by_nonempty(s@.skip(i + sep.len()), sep@);
                assert(split_by(rest, sep@) == seq![Seq::<char>::empty()] + tail);
                assert(prepend_first(cur@, split_by(rest, sep@)) == seq![cur@] + tail);
                assert(prepend_first(Seq::<char>::empty(), tail) == tail) by {
                    assert(Seq::<char>::empty() + tail[0] == tail[0]);
                }
            }
            let ghost old_parts = parts@;
            let ghost old_cur = cur@;
            parts.push(cur);
            cur = Vec::new();
            assert(views(parts@) == views(old_parts).push(old_cur));
            assert(views(parts@) + prepend_first(cur@, tail) == views(old_parts) + (seq![old_cur] + tail));
            i = i + sep.len();
        } else {
            let ghost tail = split_by(s@.skip(i + 1), sep@);
            assert(rest.drop_first() == s@.skip(i + 1));
            assert(rest[0] == s@[i as int]);
            proof {
                lemma_split_by_nonempty(s@.skip(i + 1), sep@);
            }
            let ghost old_cur = cur@;
            cur.push(s[i]);
            assert(prepend_first(old_cur, split_by(rest, sep@)) == prepend_first(cur@, tail)) by {
                assert(old_cur + (seq![s@[i as int]] + tail[0]) == cur@ + tail[0]);
            }
            i = i + 1;
        }
    }
    assert(s@.skip(i as int).len() == 0);
    assert(split_by(s@.skip(i as int), sep@) == seq![s@.skip(i as int)]);
    let ghost old_parts = parts@;
    assert(prepend_first(cur@, split_by(s@.skip(i as int), sep@)) == seq![cur@]) by {
        assert(cur@ + s@.skip(i as int) == cur@);
    }
    parts.push(cur);
    assert(views(parts@) == views(old_parts).push(cur@));
    assert(views(parts@) == views(old_parts) + seq![cur@]);
    parts
}

} // verus!

verus! {

// ---------------------------------------------------------------------------
// Comparing, building and converting
// ---------------------------------------------------------------------------

/// Whether two character vectors are equal.
pub fn chars_eq(a: &Vec<char>, b: &Vec<char>) -> (r: bool)
    ensures
        r == (a@ == b@),
{
    if a.len() != b.len() {
        return false;
    }
    let mut i: usize = 0;
    while i < a.len()
        invariant
            a.len() == b.len(),
            i <= a.len(),
            forall|j: int| 0 <= j < i ==> a@[j] == b@[j],
        decreases a.len() - i,
    {
        if a[i] != b[i] {
            return false;
        }
        i = i + 1;
    }
    assert(a@ =~= b@);
    true
}

/// Whether the characters of `v` are those of the string `s`.
pub fn chars_eq_str(v: &Vec<char>, s: &str) -> (r: bool)
    ensures
        r == (v@ == s@),
{
    let w = chars_of(s);
    chars_eq(v, &w)
}

/// Appends the characters of `s`.
pub fn push_str(out: &mut Vec<char>, s: &str)
    ensures
        final(out)@ == old(out)@ + s@,
{
    let w = chars_of(s);
    push_all(out, &w);
}

/// Appends the characters of `w`.
pub fn push_all(out: &mut Vec<char>, w: &Vec<char>)
    ensures
        final(out)@ == old(out)@ + w@,
{
    let ghost start = out@;
    for i in 0..w.len()
        invariant
            out@ == start + w@.take(i as int),
    {
        out.push(w[i]);
        assert(start + w@.take(i + 1) == (start + w@.take(i as int)).push(w@[i as int]));
    }
    assert(w@.take(w.len() as int) == w@);
}

/// A copy of the characters.
pub fn copy_chars(w: &Vec<char>) -> (r: Vec<char>)
    ensures
        r@ == w@,
{
    let mut r: Vec<char> = Vec::new();
    push_all(&mut r, w);
    r
}

/// The lower-case form of a string under Unicode's case mapping, as
/// `str::to_lowercase` computes it.
pub uninterp spec fn lowercase(s: Seq<char>) -> Seq<char>;

/// Calls `str::to_lowercase`. Its result is named `lowercase` of the input;
/// nothing more is stated of it.
#[verifier::external_body]
pub(crate) fn to_lowercase(s: &str) -> (r: String)
    ensures
        r@ == lowercase(s@),
{
    s.to_lowercase()
}

/// The characters of `s` in lower case (`str::to_lowercase`).
pub fn lowercase_chars(v: &Vec<char>) -> (r: Vec<char>)
    ensures
        r@ == lowercase(v@),
{
    let s = string_of(v);
    let l = to_lowercase(s.as_str());
    chars_of(l.as_str())
}

/// A character with Unicode's White_Space property, which is what
/// `char::is_whitespace` tests.
pub open spec fn is_whitespace(c: char) -> bool {
    ('\u{9}' <= c && c <= '\u{d}') || c == ' ' || c == '\u{85}' || c == '\u{a0}' || c == '\u{1680}'
        || ('\u{2000}' <= c && c <= '\u{200a}') || c == '\u{2028}' || c == '\u{2029}' || c == '\u{202f}'
        || c == '\u{205f}' || c == '\u{3000}'
}

/// The index of the first character of `s` from `i` on that is no white
/// space.
pub open spec fn skip_space(s: Seq<char>, i: int) -> int
    decreases s.len() - i,
{
    if 0 <= i < s.len() && is_whitespace(s[i]) {
        skip_space(s, i + 1)
    } else {
        i
    }
}

/// The end of `s[..j]` without its trailing white space.
pub open spec fn trim_end_at(s: Seq<char>, j: int) -> int
    decreases j,
{
    if 0 < j <= s.len() && is_whitespace(s[j - 1]) {
        trim_end_at(s, j - 1)
    } else {
        j
    }
}

/// `s` without leading and trailing white space (`str::trim`).
pub open spec fn trimmed(s: Seq<char>) -> Seq<char> {
    let i = skip_space(s, 0);
    if i >= s.len() {
        Seq::empty()
    } else {
        s.subrange(i, trim_end_at(s, s.len() as int))
    }
}

proof fn lemma_skip_space(s: Seq<char>, i: int)
    requires
        0 <= i <= s.len(),
    ensures
        i <= skip_space(s, i) <= s.len(),
        skip_space(s, i) < s.len() ==> !is_whitespace(s[skip_space(s, i)]),
    decreases s.len() - i,
{
    if i < s.len() && is_whitespace(s[i]) {
        lemma_skip_space(s, i + 1);
    }
}

proof fn lemma_trim_end_at(s: Seq<char>, j: int, lo: int)
    requires
        0 <= lo < j <= s.len(),
        !is_whitespace(s[lo]),
    ensures
        lo < trim_end_at(s, j) <= j,
    decreases j,
{
    if is_whitespace(s[j - 1]) {
        lemma_trim_end_at(s, j - 1, lo);
    }
}

/// `s` without leading and trailing white space (`str::trim`).
pub fn trim_chars(s: &Vec<char>) -> (r: Vec<char>)
    ensures
        r@ == trimmed(s@),
{
    let mut i: usize = 0;
    while i < s.len() && (('\u{9}' <= s[i] && s[i] <= '\u{d}') || s[i] == ' ' || s[i] == '\u{85}' || s[i]
        == '\u{a0}' || s[i] == '\u{1680}' || ('\u{2000}' <= s[i] && s[i] <= '\u{200a}') || s[i] == '\u{2028}'
        || s[i] == '\u{2029}' || s[i] == '\u{202f}' || s[i] == '\u{205f}' || s[i] == '\u{3000}')
        invariant
            i <= s.len(),
            skip_space(s@, i as int) == skip_space(s@, 0),
        decreases s.len() - i,
    {
        i = i + 1;
    }
    if i >= s.len() {
        return Vec::new();
    }
    proof {
        lemma_trim_end_at(s@, s.len() as int, i as int);
    }
    let mut j: usize = s.len();
    while j > i && (('\u{9}' <= s[j - 1] && s[j - 1] <= '\u{d}') || s[j - 1] == ' ' || s[j - 1] == '\u{85}'
        || s[j - 1] == '\u{a0}' || s[j - 1] == '\u{1680}' || ('\u{2000}' <= s[j - 1] && s[j - 1] <= '\u{200a}')
        || s[j - 1] == '\u{2028}' || s[j - 1] == '\u{2029}' || s[j - 1] == '\u{202f}' || s[j - 1] == '\u{205f}'
        || s[j - 1] == '\u{3000}')
        invariant
            i < j <= s.len(),
            trim_end_at(s@, j as int) == trim_end_at(s@, s.len() as int),
            i < trim_end_at(s@, s.len() as int),
            !is_whitespace(s@[i as int]),
        decreases j,
    {
        j = j - 1;
    }
    let mut r: Vec<char> = Vec::new();
    for k in i..j
        invariant
            i <= j <= s.len(),
            r@ == s@.subrange(i as int, k as int),
    {
        r.push(s[k]);
    }
    r
}

} // verus!

verus! {

// ---------------------------------------------------------------------------
// Ordering
// ---------------------------------------------------------------------------

/// `a` comes no later than `b` in the order of strings: character by
/// character, a prefix first.
pub open spec fn lex_le(a: Seq<char>, b: Seq<char>) -> bool
    decreases a.len(),
{
    if a.len() == 0 {
        true
    } else if b.len() == 0 {
        false
    } else if a[0] != b[0] {
        a[0] < b[0]
    } else {
        lex_le(a.drop_first(), b.drop_first())
    }
}

pub proof fn lemma_lex_le_total(a: Seq<char>, b: Seq<char>)
    ensures
        lex_le(a, b) || lex_le(b, a),
    decreases a.len(),
{
    if a.len() > 0 && b.len() > 0 && a[0] == b[0] {
        lemma_lex_le_total(a.drop_first(), b.drop_first());
    }
}

pub proof fn lemma_lex_le_transitive(a: Seq<char>, b: Seq<char>, c: Seq<char>)
    requires
        lex_le(a, b),
        lex_le(b, c),
    ensures
        lex_le(a, c),
    decreases a.len(),
{
    if a.len() > 0 && b.len() > 0 && c.len() > 0 && a[0] == b[0] && b[0] == c[0] {
        lemma_lex_le_transitive(a.drop_first(), b.drop_first(), c.drop_first());
    }
}

/// Whether `a` comes no later than `b`.
pub fn chars_le(a: &Vec<char>, b: &Vec<char>) -> (r: bool)
    ensures
        r == lex_le(a@, b@),
{
    let mut i: usize = 0;
    assert(a@.skip(0) == a@ && b@.skip(0) == b@);
    while i < a.len()
        invariant
            i <= a.len(),
            i <= b.len(),
            forall|j: int| 0 <= j < i ==> a@[j] == b@[j],
            lex_le(a@.skip(i as int), b@.skip(i as int)) == lex_le(a@, b@),
        decreases a.len() - i,
    {
        assert(a@.skip(i as int).drop_first() == a@.skip(i + 1));
        if i >= b.len() {
            return false;
        }
        assert(b@.skip(i as int).drop_first() == b@.skip(i + 1));
        if a[i] != b[i] {
            return a[i] < b[i];
        }
        i = i + 1;
    }
    true
}

} // verus!

verus! {

// ---------------------------------------------------------------------------
// Facts about decimal numbers, splitting and removing
// ---------------------------------------------------------------------------

pub proof fn lemma_digits_value_prefix_grows(s: Seq<char>, k: int)
    requires
        0 <= k <= s.len(),
    ensures
        digits_value(s.take(k)) <= digits_value(s),
    decreases s.len(),
{
    if k < s.len() {
        lemma_digits_value_prefix_grows(s.drop_last(), k);
        assert(s.drop_last().take(k) == s.take(k));
        assert(digits_value(s.drop_last()) <= digits_value(s)) by (nonlinear_arith)
            requires digits_value(s) == digits_value(s.drop_last()) * 10 + digit_value(s.last());
    } else {
        assert(s.take(k) == s);
    }
}

proof fn lemma_scan_digits(ds: Seq<char>, i: int, max: nat)
    requires
        0 <= i <= ds.len(),
        all_digits(ds),
        digits_value(ds) <= max,
    ensures
        scan_digits(ds, i, digits_value(ds.take(i)), max) == Ok::<nat, IntErrorKind>(digits_value(ds)),
    decreases ds.len() - i,
{
    if i < ds.len() {
        assert(ds.take(i + 1).drop_last() == ds.take(i));
        assert(ds.take(i + 1).last() == ds[i]);
        lemma_digits_value_prefix_grows(ds, i + 1);
        lemma_scan_digits(ds, i + 1, max);
    } else {
        assert(ds.take(i) == ds);
    }
}

proof fn lemma_digit_char(d: nat)
    requires
        d < 10,
    ensures
        is_ascii_digit(digit_char(d)),
        digit_value(digit_char(d)) == d,
{
}

pub proof fn lemma_decimal_digits(n: nat)
    ensures
        all_digits(decimal(n)),
        digits_value(decimal(n)) == n,
        decimal(n).len() >= 1,
        decimal(n)[0] != '+' && decimal(n)[0] != '-',
    decreases n,
{
    lemma_digit_char(n % 10);
    if n < 10 {
        let d = decimal(n);
        assert(d.drop_last() =~= Seq::<char>::empty());
        assert(n % 10 == n);
        assert(digits_value(d.drop_last()) == 0);
        assert(digits_value(d) == digits_value(d.drop_last()) * 10 + digit_value(d.last()));
    } else {
        lemma_decimal_digits(n / 10);
        let d = decimal(n);
        assert(d.drop_last() == decimal(n / 10));
        assert(d[0] == decimal(n / 10)[0]);
        assert(d.last() == digit_char(n % 10));
        assert(digits_value(d) == digits_value(d.drop_last()) * 10 + digit_value(d.last()));
        assert(n == (n / 10) * 10 + n % 10);
        assert forall|i: int| 0 <= i < d.len() implies is_ascii_digit(#[trigger] d[i]) by {
            if i < d.len() - 1 {
                assert(d[i] == decimal(n / 10)[i]);
            }
        }
    }
}

/// Reading a number written in decimal gives it back.
pub proof fn lemma_parse_decimal(n: nat, max: nat)
    requires
        n <= max,
    ensures
        parse_uint(decimal(n), max) == Ok::<nat, IntErrorKind>(n),
{
    lemma_decimal_digits(n);
    let d = decimal(n);
    assert(d.take(0) =~= Seq::<char>::empty());
    lemma_scan_digits(d, 0, max);
}

/// `s` does not hold the character `c`.
pub open spec fn lacks(s: Seq<char>, c: char) -> bool {
    forall|i: int| 0 <= i < s.len() ==> s[i] != c
}

pub proof fn lemma_decimal_lacks(n: nat, c: char)
    requires
        !is_ascii_digit(c),
    ensures
        lacks(decimal(n), c),
{
    lemma_decimal_digits(n);
}

pub proof fn lemma_without_char_lacking(s: Seq<char>, c: char)
    requires
        lacks(s, c),
    ensures
        without_char(s, c) == s,
    decreases s.len(),
{
    if s.len() > 0 {
        lemma_without_char_lacking(s.drop_last(), c);
        assert(s.drop_last().push(s.last()) == s);
    }
}

/// Splitting a text that lacks the separator gives the text itself.
pub proof fn lemma_split_lacking(x: Seq<char>, c: char)
    requires
        lacks(x, c),
    ensures
        split_by(x, seq![c]) == seq![x],
    decreases x.len(),
{
    if x.len() > 0 {
        assert(!seq![c].is_prefix_of(x)) by {
            assert(x.subrange(0, 1)[0] == x[0]);
        }
        lemma_split_lacking(x.drop_first(), c);
        assert(seq![x[0]] + x.drop_first() == x);
    }
}

/// Splitting at the first separator: a text that lacks it, the separator,
/// and the rest.
pub proof fn lemma_split_at_first(x: Seq<char>, c: char, y: Seq<char>)
    requires
        lacks(x, c),
    ensures
        split_by(x + seq![c] + y, seq![c]) == seq![x] + split_by(y, seq![c]),
    decreases x.len(),
{
    let s = x + seq![c] + y;
    if x.len() == 0 {
        assert(x =~= Seq::<char>::empty());
        assert(s == seq![c] + y);
        assert(seq![c].is_prefix_of(s));
        assert(s.skip(1) == y);
    } else {
        assert(!seq![c].is_prefix_of(s)) by {
            assert(s.subrange(0, 1)[0] == x[0]);
        }
        assert(s.drop_first() == x.drop_first() + seq![c] + y);
        lemma_split_at_first(x.drop_first(), c, y);
        lemma_split_by_nonempty(y, seq![c]);
        assert(seq![s[0]] + x.drop_first() == x);
        assert((seq![x.drop_first()] + split_by(y, seq![c])).update(0, seq![s[0]] + x.drop_first())
            =~= seq![x] + split_by(y, seq![c]));
    }
}


/// Splitting a text that lacks the separator's first character gives the
/// text itself.
pub proof fn lemma_split_lacking_sep(x: Seq<char>, sep: Seq<char>)
    requires
        sep.len() > 0,
        lacks(x, sep[0]),
    ensures
        split_by(x, sep) == seq![x],
    decreases x.len(),
{
    if x.len() > 0 {
        assert(!sep.is_prefix_of(x)) by {
            if sep.is_prefix_of(x) {
                assert(x.subrange(0, sep.len() as int)[0] == x[0]);
            }
        }
        lemma_split_lacking_sep(x.drop_first(), sep);
        assert(seq![x[0]] + x.drop_first() == x);
    }
}

/// Splitting at the first separator, where the text before it lacks the
/// separator's first character.
pub proof fn lemma_split_at_first_sep(x: Seq<char>, sep: Seq<char>, y: Seq<char>)
    requires
        sep.len() > 0,
        lacks(x, sep[0]),
    ensures
        split_by(x + sep + y, sep) == seq![x] + split_by(y, sep),
    decreases x.len(),
{
    let s = x + sep + y;
    if x.len() == 0 {
        assert(x =~= Seq::<char>::empty());
        assert(s =~= sep + y);
        assert(s.subrange(0, sep.len() as int) =~= sep);
        assert(sep.is_prefix_of(s));
        assert(s.skip(sep.len() as int) =~= y);
    } else {
        assert(!sep.is_prefix_of(s)) by {
            if sep.is_prefix_of(s) {
                assert(s.subrange(0, sep.len() as int)[0] == s[0]);
                assert(s[0] == x[0]);
            }
        }
        assert(s.drop_first() =~= x.drop_first() + sep + y);
        lemma_split_at_first_sep(x.drop_first(), sep, y);
        lemma_split_by_nonempty(y, sep);
        assert(seq![s[0]] + x.drop_first() =~= x);
        assert((seq![x.drop_first()] + split_by(y, sep)).update(0, seq![s[0]] + x.drop_first()) =~= seq![x]
            + split_by(y, sep));
    }
}

/// Removing a character from two joined texts removes it from each.
pub proof fn lemma_without_char_append(a: Seq<char>, b: Seq<char>, c: char)
    ensures
        without_char(a + b, c) == without_char(a, c) + without_char(b, c),
    decreases b.len(),
{
    if b.len() == 0 {
        assert(a + b =~= a);
        assert(without_char(a, c) + without_char(b, c) =~= without_char(a, c));
    } else {
        lemma_without_char_append(a, b.drop_last(), c);
        assert((a + b).drop_last() =~= a + b.drop_last());
        assert((a + b).last() == b.last());
        if b.last() != c {
            assert((without_char(a, c) + without_char(b.drop_last(), c)).push(b.last()) =~= without_char(a, c)
                + without_char(b.drop_last(), c).push(b.last()));
        }
    }
}

/// Reading a nonempty run of digits gives its value.
pub proof fn lemma_parse_digits(s: Seq<char>, max: nat)
    requires
        s.len() > 0,
        all_digits(s),
        digits_value(s) <= max,
    ensures
        parse_uint(s, max) == Ok::<nat, IntErrorKind>(digits_value(s)),
{
    assert(is_ascii_digit(s[0]));
    assert(s.take(0) =~= Seq::<char>::empty());
    lemma_scan_digits(s, 0, max);
}

/// The two-digit notation is digits, and it reads as the number.
pub proof fn lemma_decimal2_digits(n: nat)
    ensures
        all_digits(decimal2(n)),
        digits_value(decimal2(n)) == n,
        decimal2(n).len() >= 1,
{
    if n < 10 {
        lemma_digit_char(n);
        let d = decimal2(n);
        assert(d.drop_last() =~= seq!['0']);
        let z = seq!['0'];
        assert(z.drop_last() =~= Seq::<char>::empty());
        assert(digits_value(z.drop_last()) == 0);
        assert(z.last() == '0');
        assert(digit_value('0') == 0);
        assert(digits_value(z) == 0);
    } else {
        lemma_decimal_digits(n);
    }
}

/// Splitting two texts joined by the separator gives the pieces of the
/// first, then those of the second.
pub proof fn lemma_split_join(x: Seq<char>, c: char, y: Seq<char>)
    ensures
        split_by(x + seq![c] + y, seq![c]) == split_by(x, seq![c]) + split_by(y, seq![c]),
    decreases x.len(),
{
    let s = x + seq![c] + y;
    let sep = seq![c];
    if x.len() == 0 {
        assert(x =~= Seq::<char>::empty());
        assert(s =~= sep + y);
        assert(s.subrange(0, 1) =~= sep);
        assert(s.skip(1) =~= y);
    } else if x[0] == c {
        assert(s.subrange(0, 1) =~= sep);
        assert(s.skip(1) =~= x.drop_first() + sep + y);
        assert(x.subrange(0, 1) =~= sep);
        assert(x.skip(1) =~= x.drop_first());
        lemma_split_join(x.drop_first(), c, y);
        assert(seq![Seq::<char>::empty()] + (split_by(x.drop_first(), sep) + split_by(y, sep)) =~= (seq![
            Seq::<char>::empty(),
        ] + split_by(x.drop_first(), sep)) + split_by(y, sep));
    } else {
        assert(!sep.is_prefix_of(s)) by {
            assert(s.subrange(0, 1)[0] == s[0]);
        }
        assert(!sep.is_prefix_of(x)) by {
            assert(x.subrange(0, 1)[0] == x[0]);
        }
        assert(s.drop_first() =~= x.drop_first() + sep + y);
        lemma_split_join(x.drop_first(), c, y);
        lemma_split_by_nonempty(x.drop_first(), sep);
        let a = split_by(x.drop_first(), sep);
        let b = split_by(y, sep);
        assert((a + b).update(0, seq![s[0]] + (a + b)[0]) =~= a.update(0, seq![x[0]] + a[0]) + b);
    }
}

/// Removing a pattern from a text followed by the pattern, where the text
/// lacks the pattern's first character, gives the text.
pub proof fn lemma_without_pattern_suffix(x: Seq<char>, p: Seq<char>)
    requires
        p.len() > 0,
        lacks(x, p[0]),
    ensures
        without_pattern(x + p, p) == x,
    decreases x.len(),
{
    let s = x + p;
    if x.len() == 0 {
        assert(s =~= p);
        assert(s.subrange(0, p.len() as int) =~= p);
        assert(s.skip(p.len() as int) =~= Seq::<char>::empty());
        assert(p.is_prefix_of(s));
        assert(without_pattern(s, p) == without_pattern(s.skip(p.len() as int), p));
        assert(without_pattern(Seq::<char>::empty(), p) == Seq::<char>::empty());
        assert(x =~= Seq::<char>::empty());
    } else {
        assert(!p.is_prefix_of(s)) by {
            if p.is_prefix_of(s) {
                assert(s.subrange(0, p.len() as int)[0] == s[0]);
                assert(s[0] == x[0]);
            }
        }
        assert(s.drop_first() =~= x.drop_first() + p);
        lemma_without_pattern_suffix(x.drop_first(), p);
        assert(seq![s[0]] + x.drop_first() =~= x);
    }
}

} // verus!
