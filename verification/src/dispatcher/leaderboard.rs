//! The runner leaderboard: each runner's best finish, fastest first.

use vstd::prelude::*;
use vstd::string::*;

use crate::dispatcher::utils::{format_time, mins_secs_to_millis, minutes_seconds_millis, time_text};
use crate::name_map::{entries_map, keys_distinct, lemma_find_key, lemma_find_key_at, lemma_push_map, find_key, NameMap};
use crate::text::{
    all_digits, chars_eq_str, chars_of, decimal, decimal2, is_ascii_digit, lacks, lemma_decimal2_digits,
    lemma_decimal_digits, lemma_parse_decimal, lemma_parse_digits, lemma_split_at_first, lemma_split_at_first_sep,
    lemma_split_lacking, lemma_split_lacking_sep, lemma_without_char_append, lemma_without_char_lacking, parse_uint,
    parse_uint_chars, push_all, push_str, remove_char, split, split_by, string_of, views, without_char,
};

verus! {

pub open spec fn leaderboard_header() -> Seq<char> {
    "## Runner Leaderboard"@
}

/// The lines of the leaderboard message that hold entries.
pub open spec fn is_entry_line(l: Seq<char>) -> bool {
    l != leaderboard_header() && l != Seq::<char>::empty()
}

/// The time of an entry's time field: the numbers between colons, the
/// first two read as minutes and seconds. `None` where reading it panics (a
/// field that is no `u8`, or fewer than two).
pub open spec fn entry_time(field: Seq<char>) -> Option<nat> {
    let parts = split_by(without_char(field, '`'), seq![':']);
    if parts.len() >= 2 && (forall|i: int| 0 <= i < parts.len() ==> #[trigger] parse_uint(parts[i], 255) is Ok) {
        Some(minutes_seconds_millis(parse_uint(parts[0], 255)->Ok_0, parse_uint(parts[1], 255)->Ok_0))
    } else {
        None
    }
}

pub open spec fn bad_leaderboard_message() -> Seq<char> {
    "failed to parse leaderboard message."@
}

/// The runners and times of the leaderboard's lines, a later line for the
/// same runner replacing an earlier one; the error for a line that is no
/// entry; `None` where reading a time panics.
pub open spec fn leaderboard_entries(lines: Seq<Seq<char>>) -> Option<Result<Map<Seq<char>, nat>, Seq<char>>>
    decreases lines.len(),
{
    if lines.len() == 0 {
        Some(Ok(Map::empty()))
    } else {
        match leaderboard_entries(lines.drop_last()) {
            None => None,
            Some(Err(e)) => Some(Err(e)),
            Some(Ok(m)) => {
                let l = lines.last();
                if !is_entry_line(l) {
                    Some(Ok(m))
                } else {
                    let parts = split_by(l, seq!['\t', '\t']);
                    if parts.len() != 2 {
                        Some(Err(bad_leaderboard_message()))
                    } else {
                        match entry_time(parts[0]) {
                            None => None,
                            Some(t) => Some(Ok(m.insert(parts[1], t))),
                        }
                    }
                }
            },
        }
    }
}

/// The entries after a runner finishes in `t`: the runner's best time.
pub open spec fn with_finish(m: Map<Seq<char>, nat>, nickname: Seq<char>, t: nat) -> Map<Seq<char>, nat> {
    if m.contains_key(nickname) && m[nickname] <= t {
        m
    } else {
        m.insert(nickname, t)
    }
}

/// The line of one entry: the time in backticks, two tabs, the runner.
pub open spec fn entry_line(name: Seq<char>, t: nat) -> Seq<char> {
    seq!['`'] + time_text(t) + seq!['`', '\t', '\t'] + name
}

/// The entry lines joined by newlines.
pub open spec fn joined_lines(entries: Seq<(Seq<char>, nat)>) -> Seq<char>
    decreases entries.len(),
{
    if entries.len() == 0 {
        Seq::empty()
    } else if entries.len() == 1 {
        entry_line(entries[0].0, entries[0].1)
    } else {
        joined_lines(entries.drop_last()) + seq!['\n'] + entry_line(entries.last().0, entries.last().1)
    }
}

/// The leaderboard message of these entries in this order.
pub open spec fn leaderboard_text(entries: Seq<(Seq<char>, nat)>) -> Seq<char> {
    leaderboard_header() + seq!['\n', '\n'] + joined_lines(entries)
}

/// `entries` list the map's runners once each, fastest first.
pub open spec fn fastest_first(entries: Seq<(Seq<char>, nat)>, m: Map<Seq<char>, nat>) -> bool {
    &&& keys_distinct(entries)
    &&& entries_map(entries) == m
    &&& forall|a: int, b: int| 0 <= a < b < entries.len() ==> #[trigger] entries[a].1 <= #[trigger] entries[b].1
}

/// What updating the leaderboard writes: new text for its message, or the
/// text of a new message.
pub struct LeaderboardWrite {
    pub edit_existing: bool,
    pub content: String,
}


/// The entries of a list of runners and times, as names and numbers.
pub open spec fn listed(v: Seq<(String, u64)>) -> Seq<(Seq<char>, nat)> {
    v.map_values(|e: (String, u64)| (e.0@, e.1 as nat))
}

/// A map of times as numbers.
pub open spec fn nat_values(m: Map<Seq<char>, u64>) -> Map<Seq<char>, nat> {
    m.map_values(|v: u64| v as nat)
}

/// A failed read stays failed, and a panicking read keeps panicking, when
/// more lines follow.
proof fn lemma_entries_prefix(lines: Seq<Seq<char>>, i: int)
    requires
        0 <= i <= lines.len(),
    ensures
        leaderboard_entries(lines.take(i)) is None ==> leaderboard_entries(lines) is None,
        leaderboard_entries(lines.take(i)) matches Some(Err(e)) ==> leaderboard_entries(lines) == Some(
            Err::<Map<Seq<char>, nat>, Seq<char>>(e),
        ),
    decreases lines.len() - i,
{
    if i == lines.len() {
        assert(lines.take(i) =~= lines);
    } else {
        lemma_entries_prefix(lines, i + 1);
        assert(lines.take(i + 1).drop_last() =~= lines.take(i));
    }
}

/// Reads the runners and times of the leaderboard message `content`.
fn read_leaderboard(content: &str) -> (r: Result<NameMap<u64>, String>)
    requires
        leaderboard_entries(split_by(content@, seq!['\n'])) is Some,
    ensures
        match leaderboard_entries(split_by(content@, seq!['\n']))->0 {
            Ok(m) => r matches Ok(lb) && nat_values(lb.map()) == m,
            Err(e) => r matches Err(x) && x@ == e,
        },
{
    let chars = chars_of(content);
    let nl: Vec<char> = vec!['\n'];
    let tabs: Vec<char> = vec!['\t', '\t'];
    let colon: Vec<char> = vec![':'];
    assert(nl@ == seq!['\n']);
    assert(tabs@ == seq!['\t', '\t']);
    assert(colon@ == seq![':']);
    let lines = split(&chars, &nl);
    let ghost lv = views(lines@);
    let mut lb: NameMap<u64> = NameMap::new();
    proof {
        assert(lv.take(0) =~= Seq::<Seq<char>>::empty());
        assert(lb.map() =~= Map::<Seq<char>, u64>::empty()) by {
            assert forall|k: Seq<char>| !lb.map().contains_key(k) by {
                lemma_find_key(lb.pairs(), k);
            }
        }
        assert(nat_values(lb.map()) =~= Map::<Seq<char>, nat>::empty());
    }
    let mut i: usize = 0;
    while i < lines.len()
        invariant
            i <= lines.len(),
            lv == views(lines@),
            lv == split_by(content@, seq!['\n']),
            leaderboard_entries(lv) is Some,
            leaderboard_entries(lv.take(i as int)) == Some(
                Ok::<Map<Seq<char>, nat>, Seq<char>>(nat_values(lb.map())),
            ),
            tabs@ == seq!['\t', '\t'],
            colon@ == seq![':'],
        decreases lines.len() - i,
    {
        let l = &lines[i];
        let ghost before = nat_values(lb.map());
        proof {
            assert(lv.take(i + 1).drop_last() =~= lv.take(i as int));
            assert(lv.take(i + 1).last() == l@);
            lemma_entries_prefix(lv, i + 1);
        }
        if !chars_eq_str(l, "## Runner Leaderboard") && l.len() != 0 {
            let parts = split(l, &tabs);
            if parts.len() != 2 {
                return Err(String::from_str("failed to parse leaderboard message."));
            }
            let field = remove_char(&parts[0], '`');
            let nums = split(&field, &colon);
            proof {
                assert(views(parts@)[0] == parts@[0]@);
                assert(views(parts@)[1] == parts@[1]@);
                assert(views(nums@)[0] == nums@[0]@);
                assert(views(nums@)[1] == nums@[1]@);
            }
            let minutes = parse_uint_chars(&nums[0], 255);
            let seconds = parse_uint_chars(&nums[1], 255);
            match (minutes, seconds) {
                (Ok(m), Ok(s)) => {
                    let t = mins_secs_to_millis((m as u8, s as u8));
                    let name = string_of(&parts[1]);
                    lb.insert(name, t);
                    proof {
                        assert(nat_values(lb.map()) =~= before.insert(parts@[1]@, t as nat));
                    }
                },
                _ => {
                    proof {
                        assert(views(nums@)[0] == nums@[0]@);
                    }
                    assert(false);
                },
            }
        } else {
            assert(l.len() == 0 ==> l@ =~= Seq::<char>::empty());
            assert(!is_entry_line(l@));
        }
        i = i + 1;
    }
    proof {
        assert(lv.take(lines.len() as int) =~= lv);
    }
    Ok(lb)
}


/// The entries of `lb`, fastest first.
fn fastest_entries(lb: NameMap<u64>) -> (r: Vec<(String, u64)>)
    ensures
        fastest_first(listed(r@), nat_values(lb.map())),
{
    let ghost full = nat_values(lb.map());
    let mut rem = lb;
    let mut out: Vec<(String, u64)> = Vec::new();
    proof {
        assert(listed(out@) =~= Seq::<(Seq<char>, nat)>::empty());
        assert(entries_map(listed(out@)) =~= Map::<Seq<char>, nat>::empty()) by {
            assert forall|k: Seq<char>| !entries_map(listed(out@)).contains_key(k) by {
                lemma_find_key(listed(out@), k);
            }
        }
        assert(entries_map(listed(out@)).union_prefer_right(nat_values(rem.map())) =~= full);
    }
    while rem.len() > 0
        invariant
            keys_distinct(listed(out@)),
            forall|a: int| 0 <= a < out@.len() ==> !rem.map().contains_key(#[trigger] listed(out@)[a].0),
            entries_map(listed(out@)).union_prefer_right(nat_values(rem.map())) == full,
            forall|a: int, b: int|
                0 <= a < b < out@.len() ==> #[trigger] listed(out@)[a].1 <= #[trigger] listed(out@)[b].1,
            forall|a: int, k: Seq<char>|
                0 <= a < out@.len() && #[trigger] rem.map().contains_key(k) ==> #[trigger] listed(out@)[a].1
                    <= rem.map()[k],
        decreases rem.pairs().len(),
    {
        proof {
            use_type_invariant(&rem);
        }
        let mut best: usize = 0;
        let mut j: usize = 1;
        while j < rem.len()
            invariant
                0 < rem.pairs().len(),
                best < rem.pairs().len(),
                1 <= j <= rem.pairs().len(),
                forall|q: int| 0 <= q < j ==> rem.pairs()[best as int].1 <= #[trigger] rem.pairs()[q].1,
            decreases rem.pairs().len() - j,
        {
            if rem.value_at(j) < rem.value_at(best) {
                best = j;
            }
            j = j + 1;
        }
        let name = rem.name_at(best).clone();
        let v = rem.value_at(best);
        let ghost old_rem = rem.map();
        let ghost old_pairs = rem.pairs();
        let ghost old_out = listed(out@);
        proof {
            lemma_find_key_at(old_pairs, best as int);
            assert forall|k: Seq<char>| #[trigger] old_rem.contains_key(k) implies v <= old_rem[k] by {
                lemma_find_key(old_pairs, k);
            }
            assert(old_rem.contains_key(name@));
            assert(old_rem[name@] == v);
        }
        rem.remove(name.as_str());
        out.push((name, v));
        proof {
            assert(listed(out@) =~= old_out.push((name@, v as nat)));
            lemma_push_map(old_out, name@, v as nat);
            assert(rem.map() == old_rem.remove(name@));
            assert(entries_map(listed(out@)).union_prefer_right(nat_values(rem.map())) =~= full) by {
                assert(nat_values(rem.map()) =~= nat_values(old_rem).remove(name@));
            }
            assert forall|a: int| 0 <= a < out@.len() implies !rem.map().contains_key(
                #[trigger] listed(out@)[a].0,
            ) by {
                if a < old_out.len() {
                    assert(listed(out@)[a] == old_out[a]);
                }
            }
            assert forall|a: int, b: int| 0 <= a < b < out@.len() implies #[trigger] listed(out@)[a].1
                <= #[trigger] listed(out@)[b].1 by {
                assert(listed(out@)[a] == old_out[a]);
                if b < old_out.len() {
                    assert(listed(out@)[b] == old_out[b]);
                }
            }
            assert forall|a: int, k: Seq<char>|
                0 <= a < out@.len() && #[trigger] rem.map().contains_key(k) implies #[trigger] listed(
                out@,
            )[a].1 <= rem.map()[k] by {
                assert(old_rem.contains_key(k));
                if a < old_out.len() {
                    assert(listed(out@)[a] == old_out[a]);
                }
            }
        }
    }
    proof {
        assert forall|k: Seq<char>| !rem.map().contains_key(k) by {
            lemma_find_key(rem.pairs(), k);
        }
        assert(entries_map(listed(out@)) =~= full);
    }
    out
}


/// Appends the line of one entry.
fn push_entry_line(out: &mut Vec<char>, name: &String, ms: u64)
    ensures
        final(out)@ == old(out)@ + entry_line(name@, ms as nat),
{
    let ghost start = out@;
    out.push('`');
    let t = format_time(ms);
    push_str(out, t.as_str());
    out.push('`');
    out.push('\t');
    out.push('\t');
    push_str(out, name.as_str());
    assert(out@ =~= start + entry_line(name@, ms as nat));
}

/// The leaderboard message listing `entries` in order.
fn leaderboard_message(entries: &Vec<(String, u64)>) -> (r: String)
    ensures
        r@ == leaderboard_text(listed(entries@)),
{
    let mut out: Vec<char> = Vec::new();
    push_str(&mut out, "## Runner Leaderboard");
    out.push('\n');
    out.push('\n');
    let ghost start = out@;
    let ghost lv = listed(entries@);
    assert(start == leaderboard_header() + seq!['\n', '\n']);
    assert(lv.take(0) =~= Seq::<(Seq<char>, nat)>::empty());
    for i in 0..entries.len()
        invariant
            lv == listed(entries@),
            start == leaderboard_header() + seq!['\n', '\n'],
            out@ == start + joined_lines(lv.take(i as int)),
    {
        let ghost before = out@;
        if i > 0 {
            out.push('\n');
        }
        push_entry_line(&mut out, &entries[i].0, entries[i].1);
        proof {
            let t = lv.take(i + 1);
            assert(t.drop_last() =~= lv.take(i as int));
            assert(t.last() == lv[i as int]);
            if i == 0 {
                assert(t.len() == 1);
                assert(out@ =~= start + joined_lines(t));
            } else {
                assert(out@ =~= start + joined_lines(t));
            }
        }
    }
    assert(lv.take(entries.len() as int) =~= lv);
    string_of(&out)
}

/// The leaderboard after `nickname` finishes in `time` (minutes and
/// seconds): a new message listing only this runner where the channel has
/// none yet (`existing` is `None`), else the text that replaces the
/// existing message, which lists each runner's best time, fastest first.
pub fn update_leaderboard(existing: Option<String>, nickname: String, time: (u8, u8)) -> (r: Result<
    LeaderboardWrite,
    String,
>)
    requires
        existing matches Some(c) ==> leaderboard_entries(split_by(c@, seq!['\n'])) is Some,
    ensures
        existing is None ==> (r matches Ok(w) && !w.edit_existing && w.content@ == leaderboard_text(
            seq![(nickname@, minutes_seconds_millis(time.0 as nat, time.1 as nat))],
        )),
        existing matches Some(c) ==> match leaderboard_entries(split_by(c@, seq!['\n']))->0 {
            Err(e) => r matches Err(x) && x@ == e,
            Ok(m) => r matches Ok(w) && w.edit_existing && exists|entries: Seq<(Seq<char>, nat)>|
                #[trigger] fastest_first(
                    entries,
                    with_finish(m, nickname@, minutes_seconds_millis(time.0 as nat, time.1 as nat)),
                ) && w.content@ == leaderboard_text(entries),
        },
{
    let t = mins_secs_to_millis(time);
    match existing {
        None => {
            let mut one: Vec<(String, u64)> = Vec::new();
            one.push((nickname, t));
            let content = leaderboard_message(&one);
            assert(listed(one@) =~= seq![(nickname@, t as nat)]);
            Ok(LeaderboardWrite { edit_existing: false, content })
        },
        Some(c) => {
            match read_leaderboard(c.as_str()) {
                Err(e) => Err(e),
                Ok(lb) => {
                    let mut lb = lb;
                    let ghost m0 = nat_values(lb.map());
                    match lb.get(nickname.as_str()) {
                        Some(best) => {
                            if best > t {
                                lb.insert(nickname, t);
                            }
                        },
                        None => {
                            lb.insert(nickname, t);
                        },
                    }
                    assert(nat_values(lb.map()) =~= with_finish(m0, nickname@, t as nat));
                    let entries = fastest_entries(lb);
                    let content = leaderboard_message(&entries);
                    assert(fastest_first(listed(entries@), with_finish(m0, nickname@, t as nat)));
                    Ok(LeaderboardWrite { edit_existing: true, content })
                },
            }
        },
    }
}

/// A finish keeps each runner's best time: the finishing runner's entry is
/// the faster of the old time and the new one, and every other runner's
/// entry stays as it was.
pub proof fn lemma_finish_keeps_best(m: Map<Seq<char>, nat>, nickname: Seq<char>, t: nat)
    ensures
        with_finish(m, nickname, t).contains_key(nickname),
        with_finish(m, nickname, t)[nickname] == if m.contains_key(nickname) && m[nickname] <= t {
            m[nickname]
        } else {
            t
        },
        with_finish(m, nickname, t)[nickname] <= t,
        m.contains_key(nickname) ==> with_finish(m, nickname, t)[nickname] <= m[nickname],
        forall|k: Seq<char>|
            k != nickname ==> (#[trigger] with_finish(m, nickname, t).contains_key(k) == m.contains_key(k)),
        forall|k: Seq<char>|
            k != nickname && m.contains_key(k) ==> #[trigger] with_finish(m, nickname, t)[k] == m[k],
{
}

/// Whether reading the leaderboard message `content` can be done without a
/// panic (it stops at the first line of the wrong shape).
#[verifier::loop_isolation(false)]
pub fn leaderboard_readable(content: &str) -> (r: bool)
    ensures
        r == (leaderboard_entries(split_by(content@, seq!['\n'])) is Some),
{
    let chars = chars_of(content);
    let nl: Vec<char> = vec!['\n'];
    let tabs: Vec<char> = vec!['\t', '\t'];
    let colon: Vec<char> = vec![':'];
    assert(nl@ == seq!['\n']);
    assert(tabs@ == seq!['\t', '\t']);
    assert(colon@ == seq![':']);
    let lines = split(&chars, &nl);
    let ghost lv = views(lines@);
    assert(lv.take(0) =~= Seq::<Seq<char>>::empty());
    let mut i: usize = 0;
    while i < lines.len()
        invariant
            i <= lines.len(),
            lv == views(lines@),
            lv == split_by(content@, seq!['\n']),
            leaderboard_entries(lv.take(i as int)) matches Some(Ok(_)),
            tabs@ == seq!['\t', '\t'],
            colon@ == seq![':'],
        decreases lines.len() - i,
    {
        let l = &lines[i];
        proof {
            assert(lv.take(i + 1).drop_last() =~= lv.take(i as int));
            assert(lv.take(i + 1).last() == l@);
            lemma_entries_prefix(lv, i + 1);
        }
        if !chars_eq_str(l, "## Runner Leaderboard") && l.len() != 0 {
            let parts = split(l, &tabs);
            if parts.len() != 2 {
                return true;
            }
            let field = remove_char(&parts[0], '`');
            let nums = split(&field, &colon);
            assert(views(parts@)[0] == parts@[0]@);
            assert(views(nums@) == split_by(without_char(views(parts@)[0], '`'), seq![':']));
            if nums.len() < 2 {
                assert(entry_time(views(parts@)[0]) is None);
                return false;
            }
            let mut j: usize = 0;
            while j < nums.len()
                invariant
                    j <= nums.len(),
                    views(nums@) == split_by(without_char(views(parts@)[0], '`'), seq![':']),
                    forall|q: int| 0 <= q < j ==> #[trigger] parse_uint(views(nums@)[q], 255) is Ok,
                decreases nums.len() - j,
            {
                assert(views(nums@)[j as int] == nums@[j as int]@);
                if parse_uint_chars(&nums[j], 255).is_err() {
                    proof {
                        let ps = split_by(without_char(views(parts@)[0], '`'), seq![':']);
                        assert(ps[j as int] == views(nums@)[j as int]);
                        assert(parse_uint(ps[j as int], 255) is Err);
                        assert(!(forall|q: int| 0 <= q < ps.len() ==> #[trigger] parse_uint(ps[q], 255) is Ok));
                    }
                    assert(entry_time(views(parts@)[0]) is None);
                    return false;
                }
                j = j + 1;
            }
            assert(entry_time(views(parts@)[0]) is Some);
        } else {
            assert(l.len() == 0 ==> l@ =~= Seq::<char>::empty());
        }
        i = i + 1;
    }
    proof {
        assert(lv.take(lines.len() as int) =~= lv);
    }
    true
}

} // verus!

verus! {

/// What a runner's time reads back as from its leaderboard line: the line
/// shows whole hours, a minutes field that is always `00`, and seconds, and
/// its first two fields are read as minutes and seconds, so the whole hours
/// come back as minutes.
pub open spec fn read_back_time(t: nat) -> nat {
    minutes_seconds_millis(t / 1000 / 3600, 0)
}

/// The runners of `entries`, each with the time its line reads back as.
pub open spec fn read_back_entries(entries: Seq<(Seq<char>, nat)>) -> Seq<(Seq<char>, nat)> {
    entries.map_values(|e: (Seq<char>, nat)| (e.0, read_back_time(e.1)))
}

/// A runner that a leaderboard line can hold: a name on one line without
/// tabs, and a time under 256 hours.
pub open spec fn writable_entry(name: Seq<char>, t: nat) -> bool {
    lacks(name, '\n') && lacks(name, '\t') && t / 1000 / 3600 <= 255
}

/// The lines of the entries.
pub open spec fn entry_lines(entries: Seq<(Seq<char>, nat)>) -> Seq<Seq<char>> {
    entries.map_values(|e: (Seq<char>, nat)| entry_line(e.0, e.1))
}

proof fn lemma_time_field_reads(t: nat)
    requires
        t / 1000 / 3600 <= 255,
    ensures
        forall|i: int| 0 <= i < time_text(t).len() ==> is_ascii_digit(#[trigger] time_text(t)[i]) || time_text(t)[i] == ':',
        entry_time(seq!['`'] + time_text(t) + seq!['`']) == Some(read_back_time(t)),
{
    let secs = t / 1000;
    let h = secs / 3600;
    let a = decimal(h);
    let b = decimal2(0);
    let c = decimal2(secs % 60);
    lemma_decimal_digits(h);
    lemma_decimal2_digits(0);
    lemma_decimal2_digits(secs % 60);
    let tt = time_text(t);
    assert(tt =~= a + seq![':'] + b + seq![':'] + c);
    assert forall|i: int| 0 <= i < tt.len() implies is_ascii_digit(#[trigger] tt[i]) || tt[i] == ':' by {
        if i < a.len() {
            assert(tt[i] == a[i]);
        } else if i == a.len() {
        } else if i < a.len() + 1 + b.len() {
            assert(tt[i] == b[i - a.len() - 1]);
        } else if i == a.len() + 1 + b.len() {
        } else {
            assert(tt[i] == c[i - a.len() - 2 - b.len()]);
        }
    }
    assert(lacks(tt, '`'));
    let f = seq!['`'] + tt + seq!['`'];
    lemma_without_char_append(seq!['`'] + tt, seq!['`'], '`');
    lemma_without_char_append(seq!['`'], tt, '`');
    lemma_without_char_lacking(tt, '`');
    let z = seq!['`'];
    assert(z.last() == '`');
    assert(z.drop_last() =~= Seq::<char>::empty());
    assert(without_char(z.drop_last(), '`') =~= Seq::<char>::empty());
    assert(without_char(z, '`') =~= Seq::<char>::empty());
    assert(without_char(f, '`') =~= tt);
    assert(lacks(a, ':') && lacks(b, ':') && lacks(c, ':'));
    lemma_split_at_first(a, ':', b + seq![':'] + c);
    lemma_split_at_first(b, ':', c);
    lemma_split_lacking(c, ':');
    assert(tt =~= a + seq![':'] + (b + seq![':'] + c));
    let parts = split_by(tt, seq![':']);
    assert(parts =~= seq![a, b, c]);
    lemma_parse_decimal(h, 255);
    lemma_parse_digits(b, 255);
    lemma_parse_digits(c, 255);
    assert(parts[0] == a && parts[1] == b && parts[2] == c);
    assert(forall|i: int| 0 <= i < parts.len() ==> #[trigger] parse_uint(parts[i], 255) is Ok);
}

proof fn lemma_entry_line_reads(name: Seq<char>, t: nat)
    requires
        writable_entry(name, t),
    ensures
        lacks(entry_line(name, t), '\n'),
        is_entry_line(entry_line(name, t)),
        split_by(entry_line(name, t), seq!['\t', '\t']) == seq![seq!['`'] + time_text(t) + seq!['`'], name],
        entry_time(seq!['`'] + time_text(t) + seq!['`']) == Some(read_back_time(t)),
{
    lemma_time_field_reads(t);
    let tt = time_text(t);
    let f = seq!['`'] + tt + seq!['`'];
    let l = entry_line(name, t);
    let sep = seq!['\t', '\t'];
    assert(l =~= f + sep + name);
    assert forall|i: int| 0 <= i < f.len() implies f[i] != '\t' && f[i] != '\n' by {
        if 0 < i < f.len() - 1 {
            assert(f[i] == tt[i - 1]);
        }
    }
    lemma_split_at_first_sep(f, sep, name);
    lemma_split_lacking_sep(name, sep);
    assert forall|i: int| 0 <= i < l.len() implies l[i] != '\n' by {
        if i < f.len() {
            assert(l[i] == f[i]);
        } else if i >= f.len() + 2 {
            assert(l[i] == name[i - f.len() - 2]);
        }
    }
    reveal_strlit("## Runner Leaderboard");
    assert(l[0] == '`');
    assert(leaderboard_header()[0] == '#');
}

/// Splitting the joined lines of entries, a newline and `y` into lines.
proof fn lemma_joined_lines_split(entries: Seq<(Seq<char>, nat)>, y: Seq<char>)
    requires
        entries.len() >= 1,
        forall|i: int| 0 <= i < entries.len() ==> writable_entry(#[trigger] entries[i].0, entries[i].1),
    ensures
        split_by(joined_lines(entries) + seq!['\n'] + y, seq!['\n']) == entry_lines(entries) + split_by(y, seq!['\n']),
    decreases entries.len(),
{
    let (k, t) = entries.last();
    assert(writable_entry(entries[entries.len() - 1].0, entries[entries.len() - 1].1));
    lemma_entry_line_reads(k, t);
    let l = entry_line(k, t);
    if entries.len() == 1 {
        assert(entries[0] == entries.last());
        lemma_split_at_first(l, '\n', y);
        assert(entry_lines(entries) =~= seq![l]);
    } else {
        let e2 = entries.drop_last();
        assert forall|i: int| 0 <= i < e2.len() implies writable_entry(#[trigger] e2[i].0, e2[i].1) by {
            assert(e2[i] == entries[i]);
        }
        lemma_joined_lines_split(e2, l + seq!['\n'] + y);
        lemma_split_at_first(l, '\n', y);
        assert(joined_lines(entries) + seq!['\n'] + y =~= joined_lines(e2) + seq!['\n'] + (l + seq!['\n'] + y));
        assert(entry_lines(entries) =~= entry_lines(e2).push(l));
        assert(entry_lines(e2) + (seq![l] + split_by(y, seq!['\n'])) =~= entry_lines(entries) + split_by(
            y,
            seq!['\n'],
        ));
    }
}

/// The lines of the leaderboard message: the header, an empty line, and the
/// entries' lines (one empty line where there are none).
proof fn lemma_leaderboard_lines(entries: Seq<(Seq<char>, nat)>)
    requires
        forall|i: int| 0 <= i < entries.len() ==> writable_entry(#[trigger] entries[i].0, entries[i].1),
    ensures
        split_by(leaderboard_text(entries), seq!['\n']) == seq![leaderboard_header(), Seq::<char>::empty()] + (
        if entries.len() == 0 {
            seq![Seq::<char>::empty()]
        } else {
            entry_lines(entries)
        }),
{
    reveal_strlit("## Runner Leaderboard");
    let hd = leaderboard_header();
    let j = joined_lines(entries);
    assert(lacks(hd, '\n'));
    assert(leaderboard_text(entries) =~= hd + seq!['\n'] + (Seq::<char>::empty() + seq!['\n'] + j));
    lemma_split_at_first(hd, '\n', Seq::<char>::empty() + seq!['\n'] + j);
    lemma_split_at_first(Seq::<char>::empty(), '\n', j);
    if entries.len() == 0 {
        assert(j =~= Seq::<char>::empty());
    } else if entries.len() == 1 {
        lemma_entry_line_reads(entries[0].0, entries[0].1);
        lemma_split_lacking(j, '\n');
        assert(entry_lines(entries) =~= seq![j]);
    } else {
        let e2 = entries.drop_last();
        let (k, t) = entries.last();
        assert(writable_entry(entries[entries.len() - 1].0, entries[entries.len() - 1].1));
        assert forall|i: int| 0 <= i < e2.len() implies writable_entry(#[trigger] e2[i].0, e2[i].1) by {
            assert(e2[i] == entries[i]);
        }
        lemma_entry_line_reads(k, t);
        lemma_joined_lines_split(e2, entry_line(k, t));
        lemma_split_lacking(entry_line(k, t), '\n');
        assert(entry_lines(entries) =~= entry_lines(e2).push(entry_line(k, t)));
    }
    assert(seq![hd] + (seq![Seq::<char>::empty()] + split_by(j, seq!['\n'])) =~= seq![hd, Seq::<char>::empty()]
        + split_by(j, seq!['\n']));
}

/// Reading the header, an empty line and the entries' lines gives the
/// runners with the times their lines read back as.
proof fn lemma_read_entry_lines(entries: Seq<(Seq<char>, nat)>)
    requires
        keys_distinct(entries),
        forall|i: int| 0 <= i < entries.len() ==> writable_entry(#[trigger] entries[i].0, entries[i].1),
    ensures
        keys_distinct(read_back_entries(entries)),
        leaderboard_entries(seq![leaderboard_header(), Seq::<char>::empty()] + entry_lines(entries)) == Some(
            Ok::<Map<Seq<char>, nat>, Seq<char>>(entries_map(read_back_entries(entries))),
        ),
    decreases entries.len(),
{
    let head = seq![leaderboard_header(), Seq::<char>::empty()];
    let r = read_back_entries(entries);
    assert(keys_distinct(r)) by {
        assert forall|a: int, b: int| 0 <= a < r.len() && 0 <= b < r.len() && a != b implies r[a].0 != r[b].0 by {
            assert(r[a].0 == entries[a].0 && r[b].0 == entries[b].0);
        }
    }
    if entries.len() == 0 {
        assert(head + entry_lines(entries) =~= head);
        assert(head.drop_last() =~= seq![leaderboard_header()]);
        assert(head.drop_last().drop_last() =~= Seq::<Seq<char>>::empty());
        assert(leaderboard_entries(head.drop_last().drop_last()) == Some(
            Ok::<Map<Seq<char>, nat>, Seq<char>>(Map::empty()),
        ));
        assert(!is_entry_line(head.drop_last().last()));
        assert(leaderboard_entries(head.drop_last()) == Some(Ok::<Map<Seq<char>, nat>, Seq<char>>(Map::empty())));
        assert(!is_entry_line(head.last()));
        assert(entries_map(r) =~= Map::<Seq<char>, nat>::empty());
    } else {
        let e2 = entries.drop_last();
        let (k, t) = entries.last();
        assert(entries[entries.len() - 1].0 == k && entries[entries.len() - 1].1 == t);
        assert forall|i: int| 0 <= i < e2.len() implies writable_entry(#[trigger] e2[i].0, e2[i].1) by {
            assert(e2[i] == entries[i]);
        }
        assert(keys_distinct(e2)) by {
            assert forall|a: int, b: int| 0 <= a < e2.len() && 0 <= b < e2.len() && a != b implies e2[a].0
                != e2[b].0 by {
                assert(e2[a] == entries[a] && e2[b] == entries[b]);
            }
        }
        lemma_read_entry_lines(e2);
        lemma_entry_line_reads(k, t);
        let ls = head + entry_lines(entries);
        assert(ls.drop_last() =~= head + entry_lines(e2));
        assert(ls.last() == entry_line(k, t));
        let r2 = read_back_entries(e2);
        assert forall|i: int| 0 <= i < r2.len() implies r2[i].0 != k by {
            assert(r2[i].0 == e2[i].0 && e2[i] == entries[i]);
        }
        lemma_push_map(r2, k, read_back_time(t));
        assert(r =~= r2.push((k, read_back_time(t))));
        let l = ls.last();
        assert(is_entry_line(l));
        let parts = split_by(l, seq!['\t', '\t']);
        assert(parts.len() == 2);
        assert(parts[1] == k);
        assert(entry_time(parts[0]) == Some(read_back_time(t)));
    }
}

/// The times of the entries read back, as a map: each runner's time read
/// back.
proof fn lemma_read_back_map(entries: Seq<(Seq<char>, nat)>)
    requires
        keys_distinct(entries),
        keys_distinct(read_back_entries(entries)),
    ensures
        entries_map(read_back_entries(entries)) == entries_map(entries).map_values(|t: nat| read_back_time(t)),
{
    let r = read_back_entries(entries);
    let m = entries_map(entries);
    assert forall|k: Seq<char>| #![trigger find_key(r, k)] find_key(r, k) == find_key(entries, k) by {
        lemma_find_key(r, k);
        lemma_find_key(entries, k);
        if find_key(entries, k) >= 0 {
            let i = find_key(entries, k);
            assert(r[i].0 == entries[i].0);
            lemma_find_key_at(r, i);
        } else if find_key(r, k) >= 0 {
            let i = find_key(r, k);
            assert(r[i].0 == entries[i].0);
        }
    }
    assert forall|k: Seq<char>| #[trigger] entries_map(r).contains_key(k) == m.contains_key(k) && (m.contains_key(
        k,
    ) ==> entries_map(r)[k] == read_back_time(m[k])) by {
        lemma_find_key(entries, k);
        if find_key(entries, k) >= 0 {
            let i = find_key(entries, k);
            assert(r[i] == (entries[i].0, read_back_time(entries[i].1)));
        }
    }
    assert(entries_map(r) =~= m.map_values(|t: nat| read_back_time(t)));
}

/// What a leaderboard update writes, the next update reads without an
/// error or a panic, as the same runners: the message that lists the
/// runners `m` fastest first reads back as `m`, each runner with the time
/// its line reads back as (its whole hours, taken as minutes), for names on
/// one line without tabs and times under 256 hours.
pub proof fn lemma_written_leaderboard_reads_back(content: Seq<char>, m: Map<Seq<char>, nat>)
    requires
        exists|entries: Seq<(Seq<char>, nat)>| #[trigger] fastest_first(entries, m) && content == leaderboard_text(entries),
        forall|k: Seq<char>| #[trigger] m.contains_key(k) ==> writable_entry(k, m[k]),
    ensures
        leaderboard_entries(split_by(content, seq!['\n'])) == Some(
            Ok::<Map<Seq<char>, nat>, Seq<char>>(m.map_values(|t: nat| read_back_time(t))),
        ),
{
    let entries = choose|entries: Seq<(Seq<char>, nat)>| #[trigger] fastest_first(entries, m) && content
        == leaderboard_text(entries);
    assert forall|i: int| 0 <= i < entries.len() implies writable_entry(#[trigger] entries[i].0, entries[i].1) by {
        lemma_find_key_at(entries, i);
        assert(m.contains_key(entries[i].0));
        assert(m[entries[i].0] == entries[i].1);
    }
    lemma_leaderboard_lines(entries);
    lemma_read_entry_lines(entries);
    lemma_read_back_map(entries);
    let head = seq![leaderboard_header(), Seq::<char>::empty()];
    if entries.len() == 0 {
        let ls = head + seq![Seq::<char>::empty()];
        assert(ls.drop_last() =~= head + entry_lines(entries));
        assert(!is_entry_line(ls.last()));
    }
}

} // verus!
