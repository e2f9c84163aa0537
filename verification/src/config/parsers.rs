//! Role names and runner configuration lines.
//!
//! A timed pace-role is named by a prefix, a split code, minutes, a colon and
//! tens of seconds, as in `*NE3:3`; a runner's own ping role adds `+` and the
//! runner's name, as in `*NE3:0+runner`; a PB role is the prefix, the split
//! code and `PB`. The search for the split and time is the one the pattern
//! `([a-zA-Z]+)(\d+):(\d+)` performs: the leftmost match, each group as long
//! as it can be, where `\d` is any decimal digit of Unicode. A group that
//! holds a digit other than an ASCII one is then refused when it is read as
//! a number.

use vstd::prelude::*;
use vstd::string::*;

use crate::cache::consts::ROLE_PREFIX;
use crate::cache::guild_cache_entry::Split;
use crate::cache::runner_splits::RunnerSplits;
use crate::text::{lacks, split, split_by, trim_chars, trimmed, views, IntErrorKind, chars_eq_str, chars_of, int_error_message, int_error_text, decimal_digit, is_ascii_digit, is_decimal_digit, parse_uint, parse_uint_chars, push_str, remove_char, remove_pattern, string_of, without_char, without_pattern};

verus! {

pub open spec fn is_letter(c: char) -> bool {
    ('a' <= c && c <= 'z') || ('A' <= c && c <= 'Z')
}

pub open spec fn is_name_char(c: char) -> bool {
    is_letter(c) || c == '_'
}

/// The classes of characters that the groups of a role name are made of.
#[derive(PartialEq, Eq, Structural, Clone, Copy)]
pub enum CharClass {
    Letter,
    Digit,
    NameChar,
}

pub open spec fn in_class(c: char, class: CharClass) -> bool {
    match class {
        CharClass::Letter => is_letter(c),
        CharClass::Digit => is_decimal_digit(c),
        CharClass::NameChar => is_name_char(c),
    }
}

/// The end of the longest run of characters of `class` that starts at `i`.
pub open spec fn run_end(s: Seq<char>, i: int, class: CharClass) -> int
    decreases s.len() - i,
{
    if 0 <= i < s.len() && in_class(s[i], class) {
        run_end(s, i + 1, class)
    } else {
        i
    }
}

/// The group ends of a match that starts at `j`: letters `j..b`, digits
/// `b..c`, a colon at `c`, digits `c+1..d` and, with a name, name characters
/// `d..e` (else `e == d`).
pub open spec fn match_at(s: Seq<char>, j: int, with_name: bool) -> Option<(int, int, int, int)> {
    if 0 <= j < s.len() && is_letter(s[j]) {
        let b = run_end(s, j, CharClass::Letter);
        let c = run_end(s, b, CharClass::Digit);
        if c > b && c < s.len() && s[c] == ':' {
            let d = run_end(s, c + 1, CharClass::Digit);
            if d > c + 1 {
                if with_name {
                    let e = run_end(s, d, CharClass::NameChar);
                    if e > d {
                        Some((b, c, d, e))
                    } else {
                        None
                    }
                } else {
                    Some((b, c, d, d))
                }
            } else {
                None
            }
        } else {
            None
        }
    } else {
        None
    }
}

/// The leftmost match that starts at or after `j`, with its start.
pub open spec fn first_match(s: Seq<char>, j: int, with_name: bool) -> Option<(int, int, int, int, int)>
    decreases s.len() - j,
{
    if j < 0 || j >= s.len() {
        None
    } else {
        match match_at(s, j, with_name) {
            Some((b, c, d, e)) => Some((j, b, c, d, e)),
            None => first_match(s, j + 1, with_name),
        }
    }
}

/// The groups of the leftmost match: split code, minutes, tens of seconds and
/// (with a name) the runner.
pub open spec fn role_groups(s: Seq<char>, with_name: bool) -> Option<(Seq<char>, Seq<char>, Seq<char>, Seq<char>)> {
    match first_match(s, 0, with_name) {
        Some((j, b, c, d, e)) => Some(
            (s.subrange(j, b), s.subrange(b, c), s.subrange(c + 1, d), s.subrange(d, e)),
        ),
        None => None,
    }
}

proof fn lemma_run_end(s: Seq<char>, i: int, class: CharClass)
    requires
        0 <= i <= s.len(),
    ensures
        i <= run_end(s, i, class) <= s.len(),
        forall|k: int| i <= k < run_end(s, i, class) ==> in_class(#[trigger] s[k], class),
        run_end(s, i, class) < s.len() ==> !in_class(s[run_end(s, i, class)], class),
    decreases s.len() - i,
{
    if i < s.len() && in_class(s[i], class) {
        lemma_run_end(s, i + 1, class);
    }
}

fn in_class_exec(c: char, class: CharClass) -> (r: bool)
    ensures
        r == in_class(c, class),
{
    match class {
        CharClass::Letter => ('a' <= c && c <= 'z') || ('A' <= c && c <= 'Z'),
        CharClass::Digit => decimal_digit(c),
        CharClass::NameChar => ('a' <= c && c <= 'z') || ('A' <= c && c <= 'Z') || c == '_',
    }
}

fn run_end_exec(s: &Vec<char>, i: usize, class: CharClass) -> (r: usize)
    requires
        i <= s.len(),
    ensures
        r == run_end(s@, i as int, class),
{
    let mut k = i;
    while k < s.len() && in_class_exec(s[k], class)
        invariant
            i <= k <= s.len(),
            run_end(s@, k as int, class) == run_end(s@, i as int, class),
        decreases s.len() - k,
    {
        k = k + 1;
    }
    k
}

fn match_at_exec(s: &Vec<char>, j: usize, with_name: bool) -> (r: Option<(usize, usize, usize, usize)>)
    requires
        j < s.len(),
    ensures
        match_at(s@, j as int, with_name) == match r {
            Some((b, c, d, e)) => Some((b as int, c as int, d as int, e as int)),
            None => None::<(int, int, int, int)>,
        },
{
    if !in_class_exec(s[j], CharClass::Letter) {
        return None;
    }
    proof {
        lemma_run_end(s@, j as int, CharClass::Letter);
    }
    let b = run_end_exec(s, j, CharClass::Letter);
    proof {
        lemma_run_end(s@, b as int, CharClass::Digit);
    }
    let c = run_end_exec(s, b, CharClass::Digit);
    if !(c > b && c < s.len() && s[c] == ':') {
        return None;
    }
    proof {
        lemma_run_end(s@, c + 1, CharClass::Digit);
    }
    let d = run_end_exec(s, c + 1, CharClass::Digit);
    if d <= c + 1 {
        return None;
    }
    if with_name {
        proof {
            lemma_run_end(s@, d as int, CharClass::NameChar);
        }
        let e = run_end_exec(s, d, CharClass::NameChar);
        if e > d {
            Some((b, c, d, e))
        } else {
            None
        }
    } else {
        Some((b, c, d, d))
    }
}

/// The split code, minutes, tens of seconds and (with a name) runner groups
/// of the leftmost match in `s`.
pub fn find_role_groups(s: &Vec<char>, with_name: bool) -> (r: Option<(Vec<char>, Vec<char>, Vec<char>, Vec<char>)>)
    ensures
        role_groups(s@, with_name) == match r {
            Some((a, b, c, d)) => Some((a@, b@, c@, d@)),
            None => None::<(Seq<char>, Seq<char>, Seq<char>, Seq<char>)>,
        },
{
    let mut j: usize = 0;
    while j < s.len()
        invariant
            j <= s.len(),
            first_match(s@, j as int, with_name) == first_match(s@, 0, with_name),
        decreases s.len() - j,
    {
        match match_at_exec(s, j, with_name) {
            Some((b, c, d, e)) => {
                proof {
                    lemma_run_end(s@, j as int, CharClass::Letter);
                    lemma_run_end(s@, b as int, CharClass::Digit);
                    lemma_run_end(s@, c + 1, CharClass::Digit);
                    if with_name {
                        lemma_run_end(s@, d as int, CharClass::NameChar);
                    }
                }
                let g1 = slice_chars(s, j, b);
                let g2 = slice_chars(s, b, c);
                let g3 = slice_chars(s, c + 1, d);
                let g4 = slice_chars(s, d, e);
                return Some((g1, g2, g3, g4));
            },
            None => {},
        }
        j = j + 1;
    }
    None
}

/// The characters `s[lo..hi]`.
pub fn slice_chars(s: &Vec<char>, lo: usize, hi: usize) -> (r: Vec<char>)
    requires
        lo <= hi <= s.len(),
    ensures
        r@ == s@.subrange(lo as int, hi as int),
{
    let mut r: Vec<char> = Vec::new();
    for i in lo..hi
        invariant
            lo <= i <= hi <= s.len(),
            r@ == s@.subrange(lo as int, i as int),
    {
        r.push(s[i]);
    }
    r
}

} // verus!

verus! {

/// A role name without the role prefix and spaces.
pub open spec fn role_core(name: Seq<char>) -> Seq<char> {
    without_char(without_pattern(name, ROLE_PREFIX@), ' ')
}

/// A runner-ping role name without the role prefix, spaces and `+`.
pub open spec fn runner_role_core(name: Seq<char>) -> Seq<char> {
    without_char(role_core(name), '+')
}

/// The message for a role name in which no split and time were found.
pub open spec fn no_match_message(s: Seq<char>) -> Seq<char> {
    "failed to capture regex for role name: '"@ + s + "'."@
}

/// What reading a split code and time from the name `name` gives, with a
/// runner's name when `with_name`: the code, minutes, seconds (written in
/// tens) and runner; `None` where reading it panics (tens of seconds above
/// 25).
pub open spec fn role_fields(name: Seq<char>, with_name: bool) -> Option<Result<(Seq<char>, u8, u8, Seq<char>), Seq<char>>> {
    let s = if with_name { runner_role_core(name) } else { role_core(name) };
    match role_groups(s, with_name) {
        None => Some(Err(no_match_message(s))),
        Some((code, m, t, runner)) => match parse_uint(m, 255) {
            Err(k) => Some(Err(int_error_message(k))),
            Ok(mm) => match parse_uint(t, 255) {
                Err(k) => Some(Err(int_error_message(k))),
                Ok(tt) => if tt * 10 > 255 {
                    None
                } else {
                    Some(Ok((code, mm as u8, (tt * 10) as u8, runner)))
                },
            },
        },
    }
}

/// What reading a split and time from the name `name` gives, with a runner's
/// name when `with_name`; `None` where reading it panics (a split code that
/// is no split, or tens of seconds above 25).
pub open spec fn read_role(name: Seq<char>, with_name: bool) -> Option<Result<(Split, u8, u8, Seq<char>), Seq<char>>> {
    match role_fields(name, with_name) {
        None => None,
        Some(Err(e)) => Some(Err(e)),
        Some(Ok((code, m, s, runner))) => match Split::from_code(code) {
            None => None,
            Some(sp) => Some(Ok((sp, m, s, runner))),
        },
    }
}

/// The result that `extract_split_from_role_name` gives for `name`.
pub open spec fn timed_role(name: Seq<char>) -> Option<Result<(Split, u8, u8), Seq<char>>> {
    match read_role(name, false) {
        Some(Ok((sp, m, s, _))) => Some(Ok((sp, m, s))),
        Some(Err(e)) => Some(Err(e)),
        None => None,
    }
}

/// The split that a PB role's name names.
pub open spec fn pb_role_split(name: Seq<char>) -> Option<Split> {
    Split::from_code(without_pattern(role_core(name), "PB"@))
}

/// What reading the split code, minutes, seconds and, with `with_name`,
/// the runner of a pace-role name gives; `None` where the reading panics.
pub fn try_read_role_fields(role_name: &str, with_name: bool) -> (r: Option<Result<(String, u8, u8, String), String>>)
    ensures
        match r {
            None => role_fields(role_name@, with_name) is None,
            Some(Ok((code, m, s, runner))) => role_fields(role_name@, with_name) == Some(
                Ok::<(Seq<char>, u8, u8, Seq<char>), Seq<char>>((code@, m, s, runner@)),
            ),
            Some(Err(e)) => role_fields(role_name@, with_name) == Some(
                Err::<(Seq<char>, u8, u8, Seq<char>), Seq<char>>(e@),
            ),
        },
{
    let name = chars_of(role_name);
    let prefix = chars_of(ROLE_PREFIX);
    let a = remove_pattern(&name, &prefix);
    let mut s = remove_char(&a, ' ');
    if with_name {
        s = remove_char(&s, '+');
    }
    match find_role_groups(&s, with_name) {
        None => {
            let mut m: Vec<char> = Vec::new();
            push_str(&mut m, "failed to capture regex for role name: '");
            crate::text::push_all(&mut m, &s);
            push_str(&mut m, "'.");
            Some(Err(string_of(&m)))
        },
        Some((code, mins, tens, runner)) => {
            let minutes = match parse_uint_chars(&mins, 255) {
                Ok(v) => v,
                Err(k) => {
                    return Some(Err(int_error_text(k)));
                },
            };
            let tens_value = match parse_uint_chars(&tens, 255) {
                Ok(v) => v,
                Err(k) => {
                    return Some(Err(int_error_text(k)));
                },
            };
            if tens_value > 25 {
                return None;
            }
            Some(Ok((string_of(&code), minutes as u8, (tens_value * 10) as u8, string_of(&runner))))
        },
    }
}

/// Whether reading a split and time from the name (with a runner's name
/// when `with_name`) can be done without a panic.
pub fn role_name_readable(role_name: &str, with_name: bool) -> (r: bool)
    ensures
        r == (read_role(role_name@, with_name) is Some),
{
    match try_read_role_fields(role_name, with_name) {
        None => false,
        Some(Err(_)) => true,
        Some(Ok((code, _, _, _))) => Split::from_str(code.as_str()).is_some(),
    }
}

/// Reads the split code, minutes, seconds and, with `with_name`, the
/// runner of a pace-role name.
pub fn read_role_fields(role_name: &str, with_name: bool) -> (r: Result<(String, u8, u8, String), String>)
    requires
        role_fields(role_name@, with_name) is Some,
    ensures
        match r {
            Ok((code, m, s, runner)) => role_fields(role_name@, with_name) == Some(
                Ok::<(Seq<char>, u8, u8, Seq<char>), Seq<char>>((code@, m, s, runner@)),
            ),
            Err(e) => role_fields(role_name@, with_name) == Some(
                Err::<(Seq<char>, u8, u8, Seq<char>), Seq<char>>(e@),
            ),
        },
{
    let name = chars_of(role_name);
    let prefix = chars_of(ROLE_PREFIX);
    let a = remove_pattern(&name, &prefix);
    let mut s = remove_char(&a, ' ');
    if with_name {
        s = remove_char(&s, '+');
    }
    match find_role_groups(&s, with_name) {
        None => {
            let mut m: Vec<char> = Vec::new();
            push_str(&mut m, "failed to capture regex for role name: '");
            crate::text::push_all(&mut m, &s);
            push_str(&mut m, "'.");
            Err(string_of(&m))
        },
        Some((code, mins, tens, runner)) => {
            let minutes = match parse_uint_chars(&mins, 255) {
                Ok(v) => v,
                Err(k) => {
                    return Err(int_error_text(k));
                },
            };
            let tens_value = match parse_uint_chars(&tens, 255) {
                Ok(v) => v,
                Err(k) => {
                    return Err(int_error_text(k));
                },
            };
            let seconds = (tens_value * 10) as u8;
            Ok((string_of(&code), minutes as u8, seconds, string_of(&runner)))
        },
    }
}

fn read_role_exec(role_name: &str, with_name: bool) -> (r: Result<(Split, u8, u8, String), String>)
    requires
        read_role(role_name@, with_name) is Some,
    ensures
        match r {
            Ok((sp, m, s, runner)) => read_role(role_name@, with_name) == Some(
                Ok::<(Split, u8, u8, Seq<char>), Seq<char>>((sp, m, s, runner@)),
            ),
            Err(e) => read_role(role_name@, with_name) == Some(
                Err::<(Split, u8, u8, Seq<char>), Seq<char>>(e@),
            ),
        },
{
    match read_role_fields(role_name, with_name) {
        Err(e) => Err(e),
        Ok((code, minutes, seconds, runner)) => {
            let split = Split::from_str(code.as_str()).unwrap();
            Ok((split, minutes, seconds, runner))
        },
    }
}

/// Reads the split, minutes and seconds from a timed role name such as
/// `*NE3:3` (seconds are written in tens).
pub fn extract_split_from_role_name(role_name: &str) -> (r: Result<(Split, u8, u8), String>)
    requires
        timed_role(role_name@) is Some,
    ensures
        match r {
            Ok(v) => timed_role(role_name@) == Some(Ok::<(Split, u8, u8), Seq<char>>(v)),
            Err(e) => timed_role(role_name@) == Some(Err::<(Split, u8, u8), Seq<char>>(e@)),
        },
{
    match read_role_exec(role_name, false) {
        Ok((split, minutes, seconds, _)) => Ok((split, minutes, seconds)),
        Err(e) => Err(e),
    }
}

/// Reads the split from a PB role name such as `*NEPB`.
pub fn extract_split_from_pb_role_name(role_name: &str) -> (r: Option<Split>)
    ensures
        r == pb_role_split(role_name@),
{
    let name = chars_of(role_name);
    let prefix = chars_of(ROLE_PREFIX);
    let a = remove_pattern(&name, &prefix);
    let b = remove_char(&a, ' ');
    let pb = chars_of("PB");
    let c = remove_pattern(&b, &pb);
    let code = string_of(&c);
    Split::from_str(code.as_str())
}

/// Reads the split, minutes, seconds and runner from a runner-ping role name
/// such as `*NE3:0+runner`.
pub fn extract_splits_and_name_from_role_name(role_name: &str) -> (r: Result<(Split, u8, u8, String), String>)
    requires
        read_role(role_name@, true) is Some,
    ensures
        match r {
            Ok((sp, m, s, runner)) => read_role(role_name@, true) == Some(
                Ok::<(Split, u8, u8, Seq<char>), Seq<char>>((sp, m, s, runner@)),
            ),
            Err(e) => read_role(role_name@, true) == Some(
                Err::<(Split, u8, u8, Seq<char>), Seq<char>>(e@),
            ),
        },
{
    read_role_exec(role_name, true)
}

} // verus!

verus! {

/// The message for a configuration line of the wrong shape.
pub open spec fn bad_line_message(line: Seq<char>) -> Seq<char> {
    "failed to parse line contents: '"@ + line + "'."@
}

/// The message for a threshold that is no `u8`.
pub open spec fn bad_number_message(k: IntErrorKind) -> Seq<char> {
    "failed to parse to u8 due to: "@ + int_error_message(k)
}

/// What reading the configuration line `line` gives: a runner's name or
/// uuid, a colon, and two or three thresholds separated by `/`, with white
/// space around the line and spaces in it ignored.
pub open spec fn config_line(line: Seq<char>) -> Result<(Seq<char>, RunnerSplits), Seq<char>> {
    let l = without_char(trimmed(line), ' ');
    let parts = split_by(l, seq![':']);
    if parts.len() != 2 {
        Err(bad_line_message(l))
    } else {
        let nums = split_by(parts[1], seq!['/']);
        if nums.len() != 2 && nums.len() != 3 {
            Err(bad_line_message(l))
        } else {
            match parse_uint(nums[0], 255) {
                Err(k) => Err(bad_number_message(k)),
                Ok(a) => match parse_uint(nums[1], 255) {
                    Err(k) => Err(bad_number_message(k)),
                    Ok(b) => if nums.len() == 3 {
                        match parse_uint(nums[2], 255) {
                            Err(k) => Err(bad_number_message(k)),
                            Ok(c) => Ok(
                                (parts[0], RunnerSplits { tower_start: a as u8, end_enter: b as u8, finish: Some(c as u8) }),
                            ),
                        }
                    } else {
                        Ok((parts[0], RunnerSplits { tower_start: a as u8, end_enter: b as u8, finish: None }))
                    },
                },
            }
        }
    }
}

fn bad_line(l: &Vec<char>) -> (r: String)
    ensures
        r@ == bad_line_message(l@),
{
    let mut m: Vec<char> = Vec::new();
    push_str(&mut m, "failed to parse line contents: '");
    crate::text::push_all(&mut m, l);
    push_str(&mut m, "'.");
    string_of(&m)
}

fn bad_number(k: IntErrorKind) -> (r: String)
    ensures
        r@ == bad_number_message(k),
{
    let mut m: Vec<char> = Vec::new();
    push_str(&mut m, "failed to parse to u8 due to: ");
    let t = int_error_text(k);
    push_str(&mut m, t.as_str());
    string_of(&m)
}

/// Reads a runner configuration line such as `runner:5/9/12`.
pub fn extract_name_or_uuid_and_splits_from_config_line(line: &str) -> (r: Result<(String, RunnerSplits), String>)
    ensures
        match r {
            Ok((name, splits)) => config_line(line@) == Ok::<(Seq<char>, RunnerSplits), Seq<char>>((name@, splits)),
            Err(e) => config_line(line@) == Err::<(Seq<char>, RunnerSplits), Seq<char>>(e@),
        },
{
    let lv = chars_of(line);
    let tv = trim_chars(&lv);
    let l = remove_char(&tv, ' ');
    let mut colon: Vec<char> = Vec::new();
    colon.push(':');
    let parts = split(&l, &colon);
    assert(colon@ == seq![':']);
    if parts.len() != 2 {
        return Err(bad_line(&l));
    }
    assert(views(parts@)[0] == parts@[0]@ && views(parts@)[1] == parts@[1]@);
    let mut slash: Vec<char> = Vec::new();
    slash.push('/');
    assert(slash@ == seq!['/']);
    let nums = split(&parts[1], &slash);
    if nums.len() != 2 && nums.len() != 3 {
        return Err(bad_line(&l));
    }
    assert(views(nums@)[0] == nums@[0]@ && views(nums@)[1] == nums@[1]@);
    let a = match parse_uint_chars(&nums[0], 255) {
        Ok(v) => v,
        Err(k) => return Err(bad_number(k)),
    };
    let b = match parse_uint_chars(&nums[1], 255) {
        Ok(v) => v,
        Err(k) => return Err(bad_number(k)),
    };
    let mut splits = RunnerSplits { tower_start: a as u8, end_enter: b as u8, finish: None };
    if nums.len() == 3 {
        assert(views(nums@)[2] == nums@[2]@);
        let c = match parse_uint_chars(&nums[2], 255) {
            Ok(v) => v,
            Err(k) => return Err(bad_number(k)),
        };
        splits.finish = Some(c as u8);
    }
    Ok((string_of(&parts[0]), splits))
}

} // verus!

verus! {

/// The longest run of a class that starts at `i` ends at `k` where the
/// characters from `i` to `k` are of the class and the one at `k` is not.
pub proof fn lemma_run_end_at(s: Seq<char>, i: int, k: int, class: CharClass)
    requires
        0 <= i <= k <= s.len(),
        forall|j: int| i <= j < k ==> in_class(#[trigger] s[j], class),
        k == s.len() || !in_class(s[k], class),
    ensures
        run_end(s, i, class) == k,
    decreases k - i,
{
    if i < k {
        lemma_run_end_at(s, i + 1, k, class);
    }
}

/// A split code is one or more letters.
pub proof fn lemma_code_letters(sp: Split)
    ensures
        sp.code().len() >= 1,
        forall|i: int| 0 <= i < sp.code().len() ==> is_letter(#[trigger] sp.code()[i]),
{
    reveal_strlit("NE");
    reveal_strlit("F");
    reveal_strlit("B");
    reveal_strlit("E");
    reveal_strlit("EE");
}

/// Removing a one-character pattern that a text lacks leaves it as it is.
pub proof fn lemma_without_lacking_pattern(s: Seq<char>, c: char)
    requires
        lacks(s, c),
    ensures
        without_pattern(s, seq![c]) == s,
    decreases s.len(),
{
    if s.len() > 0 {
        assert(!seq![c].is_prefix_of(s)) by {
            assert(s.subrange(0, 1)[0] == s[0]);
        }
        lemma_without_lacking_pattern(s.drop_first(), c);
        assert(seq![s[0]] + s.drop_first() == s);
    }
}

} // verus!
