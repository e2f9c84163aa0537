//! `/whitelist` of the all-advancements category: a runner's thresholds in
//! hours and minutes, and the configuration message of the runner-names
//! channel that holds them.

use vstd::prelude::*;
use vstd::string::*;

use crate::cache::consts::PACEMANBOT_RUNNER_NAMES_CHANNEL;
use crate::cache::players::PlayerSplitsData;
use crate::command::command::{option_value_view, options_view, CommandOption, OptionValue, OptionValueView};
use crate::command::utils::{lemma_reorder_same_map, reorder, sort_by_lowercase, sorted_order};
use crate::command::whitelist::{fence, fenced, is_plain_runner_key, lemma_fence_is_fence};
use crate::config::config::{channel_views, find_channel, first_channel, is_config_line, message_lines, ChannelInfo};
use crate::name_map::{entries_map, keys_distinct, lemma_find_key_at, lemma_push_map, NameMap};
use crate::text::{
    chars_eq_str, chars_of, decimal, int_error_message, int_error_text, is_ascii_digit, is_whitespace, lacks,
    lemma_decimal_digits, lemma_decimal_lacks, lemma_parse_decimal, lemma_split_at_first, lemma_split_lacking,
    lemma_without_char_lacking, parse_uint, parse_uint_chars, push_all, push_decimal, push_str, remove_char,
    skip_space, split, split_by, string_of, trim_chars, trim_end_at, trimmed, views, without_char, IntErrorKind,
};

verus! {

/// The largest `u32`.
pub open spec fn u32_max() -> nat {
    0xFFFF_FFFF
}

/// The message for a configuration line of the wrong shape.
pub open spec fn aa_bad_line_message(line: Seq<char>) -> Seq<char> {
    "failed to parse line contents: '"@ + line + "'."@
}

/// The message for a threshold that is no `u32`.
pub open spec fn aa_bad_number_message(k: IntErrorKind) -> Seq<char> {
    "failed to parse to u32 due to: "@ + int_error_message(k)
}

/// What reading the configuration line `line` gives: a runner's name, a
/// colon, and the adventuring-time, beaconator and "how did we get here"
/// thresholds and optionally the finish threshold, in minutes, separated by
/// `/`; white space around the line and spaces in it are ignored.
pub open spec fn aa_config_line(line: Seq<char>) -> Result<(Seq<char>, PlayerSplitsData), Seq<char>> {
    let l = without_char(trimmed(line), ' ');
    let parts = split_by(l, seq![':']);
    if parts.len() != 2 {
        Err(aa_bad_line_message(l))
    } else {
        let nums = split_by(parts[1], seq!['/']);
        if nums.len() != 3 && nums.len() != 4 {
            Err(aa_bad_line_message(l))
        } else {
            match parse_uint(nums[0], u32_max()) {
                Err(k) => Err(aa_bad_number_message(k)),
                Ok(a) => match parse_uint(nums[1], u32_max()) {
                    Err(k) => Err(aa_bad_number_message(k)),
                    Ok(b) => match parse_uint(nums[2], u32_max()) {
                        Err(k) => Err(aa_bad_number_message(k)),
                        Ok(c) => if nums.len() == 4 {
                            match parse_uint(nums[3], u32_max()) {
                                Err(k) => Err(aa_bad_number_message(k)),
                                Ok(d) => Ok(
                                    (
                                        parts[0],
                                        PlayerSplitsData {
                                            adventuring_time: a as u32,
                                            beaconator: b as u32,
                                            hdwgh: c as u32,
                                            finish: Some(d as u32),
                                        },
                                    ),
                                ),
                            }
                        } else {
                            Ok(
                                (
                                    parts[0],
                                    PlayerSplitsData {
                                        adventuring_time: a as u32,
                                        beaconator: b as u32,
                                        hdwgh: c as u32,
                                        finish: None,
                                    },
                                ),
                            )
                        },
                    },
                },
            }
        }
    }
}

fn aa_bad_line(l: &Vec<char>) -> (r: String)
    ensures
        r@ == aa_bad_line_message(l@),
{
    let mut m: Vec<char> = Vec::new();
    push_str(&mut m, "failed to parse line contents: '");
    push_all(&mut m, l);
    push_str(&mut m, "'.");
    string_of(&m)
}

fn aa_bad_number(k: IntErrorKind) -> (r: String)
    ensures
        r@ == aa_bad_number_message(k),
{
    let mut m: Vec<char> = Vec::new();
    push_str(&mut m, "failed to parse to u32 due to: ");
    let t = int_error_text(k);
    push_str(&mut m, t.as_str());
    string_of(&m)
}

fn threshold(v: &Vec<char>) -> (r: Result<u32, String>)
    ensures
        match r {
            Ok(n) => parse_uint(v@, u32_max()) == Ok::<nat, IntErrorKind>(n as nat),
            Err(e) => parse_uint(v@, u32_max()) matches Err(k) && e@ == aa_bad_number_message(k),
        },
{
    match parse_uint_chars(v, 0xFFFF_FFFF) {
        Ok(n) => Ok(n as u32),
        Err(k) => Err(aa_bad_number(k)),
    }
}

/// Reads a runner's configuration line such as `runner:60/120/180/240`.
pub fn extract_name_and_splits_from_line(line: &str) -> (r: Result<(String, PlayerSplitsData), String>)
    ensures
        match r {
            Ok((name, splits)) => aa_config_line(line@) == Ok::<(Seq<char>, PlayerSplitsData), Seq<char>>(
                (name@, splits),
            ),
            Err(e) => aa_config_line(line@) == Err::<(Seq<char>, PlayerSplitsData), Seq<char>>(e@),
        },
{
    let lv = chars_of(line);
    let tv = trim_chars(&lv);
    let l = remove_char(&tv, ' ');
    let colon: Vec<char> = vec![':'];
    assert(colon@ == seq![':']);
    let parts = split(&l, &colon);
    if parts.len() != 2 {
        return Err(aa_bad_line(&l));
    }
    assert(views(parts@)[0] == parts@[0]@ && views(parts@)[1] == parts@[1]@);
    let slash: Vec<char> = vec!['/'];
    assert(slash@ == seq!['/']);
    let nums = split(&parts[1], &slash);
    if nums.len() != 3 && nums.len() != 4 {
        return Err(aa_bad_line(&l));
    }
    assert(views(nums@)[0] == nums@[0]@ && views(nums@)[1] == nums@[1]@ && views(nums@)[2] == nums@[2]@);
    let a = match threshold(&nums[0]) {
        Ok(v) => v,
        Err(e) => return Err(e),
    };
    let b = match threshold(&nums[1]) {
        Ok(v) => v,
        Err(e) => return Err(e),
    };
    let c = match threshold(&nums[2]) {
        Ok(v) => v,
        Err(e) => return Err(e),
    };
    let mut splits = PlayerSplitsData { adventuring_time: a, beaconator: b, hdwgh: c, finish: None };
    if nums.len() == 4 {
        assert(views(nums@)[3] == nums@[3]@);
        let d = match threshold(&nums[3]) {
            Ok(v) => v,
            Err(e) => return Err(e),
        };
        splits.finish = Some(d);
    }
    Ok((string_of(&parts[0]), splits))
}

/// The configuration line of one runner: name, colon, the three thresholds
/// separated by `/`, and `/` and the finish threshold where it is set.
pub open spec fn aa_line(key: Seq<char>, p: PlayerSplitsData) -> Seq<char> {
    key + seq![':'] + decimal(p.adventuring_time as nat) + seq!['/'] + decimal(p.beaconator as nat) + seq!['/']
        + decimal(p.hdwgh as nat) + match p.finish {
        Some(f) => seq!['/'] + decimal(f as nat),
        None => Seq::<char>::empty(),
    }
}

/// The configuration text of runners in this order: each line after a
/// newline.
pub open spec fn aa_config_text(entries: Seq<(Seq<char>, PlayerSplitsData)>) -> Seq<char>
    decreases entries.len(),
{
    if entries.len() == 0 {
        Seq::empty()
    } else {
        aa_config_text(entries.drop_last()) + seq!['\n'] + aa_line(entries.last().0, entries.last().1)
    }
}

fn push_aa_line(out: &mut Vec<char>, key: &Vec<char>, p: PlayerSplitsData)
    ensures
        final(out)@ == old(out)@ + aa_line(key@, p),
{
    push_all(out, key);
    out.push(':');
    push_decimal(out, p.adventuring_time as u64);
    out.push('/');
    push_decimal(out, p.beaconator as u64);
    out.push('/');
    push_decimal(out, p.hdwgh as u64);
    match p.finish {
        Some(f) => {
            out.push('/');
            push_decimal(out, f as u64);
        },
        None => {},
    }
    assert(out@ =~= old(out)@ + aa_line(key@, p));
}

/// Writes the runner configuration: one line per runner, sorted by
/// lower-case name, each after a newline.
pub fn aa_config_contents(players: &NameMap<PlayerSplitsData>) -> (r: String)
    ensures
        exists|order: Seq<int>| #[trigger]
            sorted_order(players.pairs(), order) && r@ == aa_config_text(reorder(players.pairs(), order)),
{
    let order = sort_by_lowercase(players);
    let ghost o = order@.map_values(|i: usize| i as int);
    let ghost pairs = players.pairs();
    let mut out: Vec<char> = Vec::new();
    for k in 0..order.len()
        invariant
            pairs == players.pairs(),
            o == order@.map_values(|i: usize| i as int),
            sorted_order(pairs, o),
            out@ == aa_config_text(reorder(pairs, o.take(k as int))),
    {
        let idx = order[k];
        assert(o[k as int] == idx as int);
        let key = chars_of(players.name_at(idx).as_str());
        let p = players.value_at(idx);
        out.push('\n');
        push_aa_line(&mut out, &key, p);
        assert(reorder(pairs, o.take(k + 1)).drop_last() == reorder(pairs, o.take(k as int)));
        assert(reorder(pairs, o.take(k + 1)).last() == pairs[idx as int]);
    }
    assert(o.take(order.len() as int) == o);
    string_of(&out)
}

/// The runners that the configuration lines name, a later line for the same
/// name replacing an earlier one; or the first line's error.
pub open spec fn aa_runners_from_lines(lines: Seq<Seq<char>>) -> Result<Map<Seq<char>, PlayerSplitsData>, Seq<char>>
    decreases lines.len(),
{
    if lines.len() == 0 {
        Ok(Map::empty())
    } else {
        match aa_runners_from_lines(lines.drop_last()) {
            Err(e) => Err(e),
            Ok(m) => if !is_config_line(lines.last()) {
                Ok(m)
            } else {
                match aa_config_line(lines.last()) {
                    Err(e) => Err(e),
                    Ok((n, sp)) => Ok(m.insert(n, sp)),
                }
            },
        }
    }
}

proof fn lemma_aa_runners_error_sticks(ls: Seq<Seq<char>>, k: int)
    requires
        0 <= k <= ls.len(),
        aa_runners_from_lines(ls.take(k)) is Err,
    ensures
        aa_runners_from_lines(ls) == aa_runners_from_lines(ls.take(k)),
    decreases ls.len() - k,
{
    if k < ls.len() {
        assert(ls.take(k + 1).drop_last() == ls.take(k));
        lemma_aa_runners_error_sticks(ls, k + 1);
    } else {
        assert(ls.take(k) == ls);
    }
}

/// Reads the runners that a configuration message lists.
pub fn read_aa_runner_message(content: &str) -> (r: Result<NameMap<PlayerSplitsData>, String>)
    ensures
        match r {
            Ok(m) => aa_runners_from_lines(message_lines(content@)) == Ok::<
                Map<Seq<char>, PlayerSplitsData>,
                Seq<char>,
            >(m.map()),
            Err(e) => aa_runners_from_lines(message_lines(content@)) == Err::<
                Map<Seq<char>, PlayerSplitsData>,
                Seq<char>,
            >(e@),
        },
{
    let c = chars_of(content);
    let nl: Vec<char> = vec!['\n'];
    assert(nl@ == seq!['\n']);
    let lines = split(&c, &nl);
    let ghost ls = views(lines@);
    let mut players: NameMap<PlayerSplitsData> = NameMap::new();
    assert(players.map() =~= Map::<Seq<char>, PlayerSplitsData>::empty());
    let mut i: usize = 0;
    while i < lines.len()
        invariant
            i <= lines.len(),
            ls == views(lines@),
            ls == message_lines(content@),
            aa_runners_from_lines(ls.take(i as int)) == Ok::<Map<Seq<char>, PlayerSplitsData>, Seq<char>>(
                players.map(),
            ),
        decreases lines.len() - i,
    {
        assert(ls.take(i + 1).drop_last() == ls.take(i as int));
        assert(ls.take(i + 1).last() == lines@[i as int]@);
        let line = string_of(&lines[i]);
        let is_fence = chars_eq_str(&lines[i], "```");
        if is_fence || lines[i].len() == 0 {
            proof {
                if lines@[i as int]@ != "```"@ {
                    assert(lines@[i as int]@ =~= Seq::<char>::empty());
                }
            }
        } else {
            match extract_name_and_splits_from_line(line.as_str()) {
                Ok((name, splits)) => {
                    players.insert(name, splits);
                },
                Err(e) => {
                    proof {
                        lemma_aa_runners_error_sticks(ls, (i + 1) as int);
                    }
                    return Err(e);
                },
            }
        }
        i = i + 1;
    }
    assert(ls.take(lines.len() as int) == ls);
    Ok(players)
}

/// `content` is the configuration message of the runners `m`: each runner
/// once, sorted by lower-case name, in a code block.
pub open spec fn aa_config_message_of(content: Seq<char>, m: Map<Seq<char>, PlayerSplitsData>) -> bool {
    exists|entries: Seq<(Seq<char>, PlayerSplitsData)>| #[trigger] keys_distinct(entries) && entries_map(entries)
        == m && sorted_order(entries, Seq::new(entries.len(), |i: int| i)) && content == fenced(aa_config_text(entries))
}

pub open spec fn aa_not_from_bot_message() -> Seq<char> {
    "WhitelistError: The first message in #"@ + PACEMANBOT_RUNNER_NAMES_CHANNEL@ + " is not from the bot."@
}

pub open spec fn aa_nothing_to_remove_message(guild_id: u64) -> Seq<char> {
    "WhitelistError: No names to remove from in guild id: "@ + decimal(guild_id as nat)
}

/// The runners after the update: `ign` removed, or set to `splits`; or the
/// error. `message` is the first message of the runner-names channel:
/// whether the bot wrote it, and its text.
pub open spec fn aa_updated_runners(
    guild_id: u64,
    remove: bool,
    ign: Seq<char>,
    splits: PlayerSplitsData,
    message: Option<(bool, Seq<char>)>,
) -> Result<Map<Seq<char>, PlayerSplitsData>, Seq<char>> {
    match message {
        Some((bot, content)) => if !bot {
            Err(aa_not_from_bot_message())
        } else {
            match aa_runners_from_lines(message_lines(content)) {
                Err(e) => Err(e),
                Ok(m) => Ok(if remove { m.remove(ign) } else { m.insert(ign, splits) }),
            }
        },
        None => if remove {
            Err(aa_nothing_to_remove_message(guild_id))
        } else {
            Ok(Map::empty().insert(ign, splits))
        },
    }
}

/// What a whitelist update writes: new text for the existing configuration
/// message, or the text of a new one.
pub struct AaWhitelistWrite {
    pub edit_existing: bool,
    pub content: String,
}

/// Applies a whitelist action (`remove`, or anything else to add or update)
/// for `ign` to the configuration message (whether the bot wrote it, and
/// its text), and writes the new configuration.
pub fn apply_aa_whitelist(
    guild_id: u64,
    action: &str,
    ign: String,
    splits: PlayerSplitsData,
    message: Option<(bool, String)>,
) -> (r: Result<AaWhitelistWrite, String>)
    ensures
        ({
            let mv = match message {
                Some((b, c)) => Some((b, c@)),
                None => None,
            };
            match r {
                Ok(w) => w.edit_existing == (message is Some) && (aa_updated_runners(
                    guild_id,
                    action@ == "remove"@,
                    ign@,
                    splits,
                    mv,
                ) matches Ok(m) && aa_config_message_of(w.content@, m)),
                Err(e) => aa_updated_runners(guild_id, action@ == "remove"@, ign@, splits, mv) == Err::<
                    Map<Seq<char>, PlayerSplitsData>,
                    Seq<char>,
                >(e@),
            }
        }),
{
    let a = chars_of(action);
    let remove = chars_eq_str(&a, "remove");
    let edit_existing = message.is_some();
    let mut players: NameMap<PlayerSplitsData> = match message {
        Some((from_bot, content)) => {
            if !from_bot {
                let mut t: Vec<char> = Vec::new();
                push_str(&mut t, "WhitelistError: The first message in #");
                push_str(&mut t, PACEMANBOT_RUNNER_NAMES_CHANNEL);
                push_str(&mut t, " is not from the bot.");
                return Err(string_of(&t));
            }
            match read_aa_runner_message(content.as_str()) {
                Ok(p) => p,
                Err(e) => return Err(e),
            }
        },
        None => {
            if remove {
                let mut t: Vec<char> = Vec::new();
                push_str(&mut t, "WhitelistError: No names to remove from in guild id: ");
                push_decimal(&mut t, guild_id);
                return Err(string_of(&t));
            }
            let p = NameMap::new();
            assert(p.map() =~= Map::<Seq<char>, PlayerSplitsData>::empty());
            p
        },
    };
    if remove {
        players.remove(ign.as_str());
    } else {
        players.insert(ign, splits);
    }
    let text = aa_config_contents(&players);
    let mut out: Vec<char> = Vec::new();
    push_str(&mut out, "```\n");
    push_str(&mut out, text.as_str());
    push_str(&mut out, "\n```");
    proof {
        reveal_strlit("```\n");
        reveal_strlit("\n```");
        use_type_invariant(&players);
        let order = choose|order: Seq<int>| #[trigger]
            sorted_order(players.pairs(), order) && text@ == aa_config_text(reorder(players.pairs(), order));
        lemma_reorder_same_map(players.pairs(), order);
        let entries = reorder(players.pairs(), order);
        assert(out@ =~= fenced(aa_config_text(entries)));
        assert(keys_distinct(entries) && entries_map(entries) == players.map() && sorted_order(
            entries,
            Seq::new(entries.len(), |i: int| i),
        ));
    }
    Ok(AaWhitelistWrite { edit_existing, content: string_of(&out) })
}

} // verus!

verus! {

/// What the options of `/whitelist` have set so far: action, in-game name
/// and thresholds.
pub type AaOptions = (Seq<char>, Seq<char>, PlayerSplitsData);

/// The threshold options: the option's name, the threshold it adds to (0:
/// adventuring time, 1: beaconator, 2: "how did we get here"), whether it
/// counts hours, and how its messages name it.
pub open spec fn threshold_option(name: Seq<char>) -> Option<(int, bool, Seq<char>)> {
    if name == "adventuring_time_hours"@ {
        Some((0, true, "adventuring time hours"@))
    } else if name == "adventuring_time_minutes"@ {
        Some((0, false, "adventuring time minutes"@))
    } else if name == "beaconator_hours"@ {
        Some((1, true, "beaconator hours"@))
    } else if name == "beaconator_minutes"@ {
        Some((1, false, "beaconator minutes"@))
    } else if name == "hdwgh_hours"@ {
        Some((2, true, "hdwgh hours"@))
    } else if name == "hdwgh_minutes"@ {
        Some((2, false, "hdwgh minutes"@))
    } else {
        None
    }
}

pub open spec fn field_of(p: PlayerSplitsData, f: int) -> u32 {
    if f == 0 {
        p.adventuring_time
    } else if f == 1 {
        p.beaconator
    } else {
        p.hdwgh
    }
}

pub open spec fn with_field(p: PlayerSplitsData, f: int, v: u32) -> PlayerSplitsData {
    if f == 0 {
        PlayerSplitsData { adventuring_time: v, ..p }
    } else if f == 1 {
        PlayerSplitsData { beaconator: v, ..p }
    } else {
        PlayerSplitsData { hdwgh: v, ..p }
    }
}

/// An option value as a `u32` (`as u32` keeps its low 32 bits).
pub open spec fn low32(n: u64) -> nat {
    n as nat % 0x1_0000_0000
}

/// The minutes that a number of hours or minutes adds.
pub open spec fn added_minutes(n: u64, hours: bool) -> nat {
    if hours {
        low32(n) * 60
    } else {
        low32(n)
    }
}

/// Reads one option of `/whitelist`; `None` where the arithmetic of the
/// thresholds overflows a `u32`, which panics.
pub open spec fn aa_option_step(st: AaOptions, name: Seq<char>, v: OptionValueView) -> Option<Result<AaOptions, Seq<char>>> {
    let (action, ign, sp) = st;
    if name == "action"@ {
        match v {
            OptionValueView::Text(s) => Some(Ok((s, ign, sp))),
            OptionValueView::Missing => Some(Err("WhitelistError: get value for action option."@)),
            _ => Some(Err("WhitelistError: parse string for action option."@)),
        }
    } else if name == "ign"@ {
        match v {
            OptionValueView::Text(s) => Some(Ok((action, s, sp))),
            OptionValueView::Missing => Some(Err("WhitelistError: get value for ign option."@)),
            _ => Some(Err("WhitelistError: parse string for ign option."@)),
        }
    } else if name == "finish_hours"@ || name == "finish_minutes"@ {
        let hours = name == "finish_hours"@;
        match v {
            OptionValueView::Unsigned(n) => {
                let base: nat = match sp.finish {
                    Some(f) => f as nat,
                    None => 0,
                };
                if added_minutes(n, hours) > u32_max() || base + added_minutes(n, hours) > u32_max() {
                    None
                } else {
                    Some(Ok((action, ign, PlayerSplitsData { finish: Some((base + added_minutes(n, hours)) as u32), ..sp })))
                }
            },
            OptionValueView::Missing => Some(Ok(st)),
            _ => Some(
                Err(
                    if hours {
                        "WhitelistError: parse u64 for finish hours option."@
                    } else {
                        "WhitelistError: parse u64 for finish minutes option."@
                    },
                ),
            ),
        }
    } else {
        match threshold_option(name) {
            Some((f, hours, label)) => match v {
                OptionValueView::Unsigned(n) => if added_minutes(n, hours) > u32_max() || field_of(sp, f)
                    + added_minutes(n, hours) > u32_max() {
                    None
                } else {
                    Some(Ok((action, ign, with_field(sp, f, (field_of(sp, f) + added_minutes(n, hours)) as u32))))
                },
                OptionValueView::Missing => if action != "remove"@ {
                    Some(Err("WhitelistError: get value for "@ + label + " option."@))
                } else {
                    Some(Ok(st))
                },
                _ => Some(Err("WhitelistError: parse u64 for "@ + label + " option."@)),
            },
            None => Some(Err("Unrecognized command option: '"@ + name + "'"@)),
        }
    }
}

/// Reads the options of `/whitelist` in order; the first error stops, and
/// `None` stands for an overflow.
pub open spec fn aa_options(opts: Seq<(Seq<char>, OptionValueView)>) -> Option<Result<AaOptions, Seq<char>>>
    decreases opts.len(),
{
    if opts.len() == 0 {
        Some(
            Ok(
                (
                    Seq::empty(),
                    Seq::empty(),
                    PlayerSplitsData { adventuring_time: 0, beaconator: 0, hdwgh: 0, finish: None },
                ),
            ),
        )
    } else {
        match aa_options(opts.drop_last()) {
            None => None,
            Some(Err(e)) => Some(Err(e)),
            Some(Ok(st)) => aa_option_step(st, opts.last().0, opts.last().1),
        }
    }
}

proof fn lemma_aa_options_prefix(opts: Seq<(Seq<char>, OptionValueView)>, k: int)
    requires
        0 <= k <= opts.len(),
    ensures
        aa_options(opts.take(k)) is None ==> aa_options(opts) is None,
        aa_options(opts.take(k)) matches Some(Err(e)) ==> aa_options(opts) == Some(Err::<AaOptions, Seq<char>>(e)),
    decreases opts.len() - k,
{
    if k < opts.len() {
        assert(opts.take(k + 1).drop_last() == opts.take(k));
        lemma_aa_options_prefix(opts, k + 1);
    } else {
        assert(opts.take(k) == opts);
    }
}

fn text_of(s: &str) -> (r: String)
    ensures
        r@ == s@,
{
    String::from_str(s)
}

fn add_minutes(current: u32, n: u64, hours: bool) -> (r: Option<u32>)
    ensures
        r is None <==> (added_minutes(n, hours) > u32_max() || current + added_minutes(n, hours) > u32_max()),
        r matches Some(v) ==> v == current + added_minutes(n, hours),
{
    let low = n as u32;
    assert(low as nat == low32(n)) by (bit_vector)
        requires low == n as u32;
    let add: u64 = if hours { (low as u64) * 60 } else { low as u64 };
    if add > 0xFFFF_FFFF {
        return None;
    }
    if (current as u64) + add > 0xFFFF_FFFF {
        return None;
    }
    Some(((current as u64) + add) as u32)
}

/// The label and field of a threshold option.
fn threshold_option_exec(name: &Vec<char>) -> (r: Option<(u8, bool, &'static str)>)
    ensures
        match threshold_option(name@) {
            Some((f, h, l)) => r matches Some((g, hh, ll)) && g as int == f && hh == h && ll@ == l,
            None => r is None,
        },
{
    if chars_eq_str(name, "adventuring_time_hours") {
        Some((0, true, "adventuring time hours"))
    } else if chars_eq_str(name, "adventuring_time_minutes") {
        Some((0, false, "adventuring time minutes"))
    } else if chars_eq_str(name, "beaconator_hours") {
        Some((1, true, "beaconator hours"))
    } else if chars_eq_str(name, "beaconator_minutes") {
        Some((1, false, "beaconator minutes"))
    } else if chars_eq_str(name, "hdwgh_hours") {
        Some((2, true, "hdwgh hours"))
    } else if chars_eq_str(name, "hdwgh_minutes") {
        Some((2, false, "hdwgh minutes"))
    } else {
        None
    }
}

/// What the options of `/whitelist` set.
pub struct AaWhitelistRequest {
    pub action: String,
    pub ign: String,
    pub splits: PlayerSplitsData,
}

/// Reads the options of `/whitelist` in order: hours and minutes add up to
/// each threshold in minutes. `None` where a threshold overflows a `u32`,
/// on which the command panics.
pub fn parse_aa_whitelist_options(options: &Vec<CommandOption>) -> (r: Option<Result<AaWhitelistRequest, String>>)
    ensures
        match r {
            None => aa_options(options_view(options@)) is None,
            Some(Ok(q)) => aa_options(options_view(options@)) == Some(
                Ok::<AaOptions, Seq<char>>((q.action@, q.ign@, q.splits)),
            ),
            Some(Err(e)) => aa_options(options_view(options@)) == Some(Err::<AaOptions, Seq<char>>(e@)),
        },
{
    let ghost ov = options_view(options@);
    let mut action = String::new();
    let mut ign = String::new();
    let mut splits = PlayerSplitsData::default();
    assert(ov.take(0) =~= Seq::<(Seq<char>, OptionValueView)>::empty());
    let mut i: usize = 0;
    while i < options.len()
        invariant
            i <= options.len(),
            ov == options_view(options@),
            aa_options(ov.take(i as int)) == Some(Ok::<AaOptions, Seq<char>>((action@, ign@, splits))),
        decreases options.len() - i,
    {
        assert(ov.take(i + 1).drop_last() == ov.take(i as int));
        assert(ov.take(i + 1).last() == ov[i as int]);
        assert(ov[i as int] == (options@[i as int].name@, option_value_view(options@[i as int].value)));
        proof {
            lemma_aa_options_prefix(ov, i + 1);
        }
        let name = chars_of(options[i].name.as_str());
        let a = chars_of(action.as_str());
        let step: Result<(), String> = if chars_eq_str(&name, "action") {
            match &options[i].value {
                OptionValue::Text(s) => {
                    action = s.clone();
                    Ok(())
                },
                OptionValue::Missing => Err(text_of("WhitelistError: get value for action option.")),
                _ => Err(text_of("WhitelistError: parse string for action option.")),
            }
        } else if chars_eq_str(&name, "ign") {
            match &options[i].value {
                OptionValue::Text(s) => {
                    ign = s.clone();
                    Ok(())
                },
                OptionValue::Missing => Err(text_of("WhitelistError: get value for ign option.")),
                _ => Err(text_of("WhitelistError: parse string for ign option.")),
            }
        } else if chars_eq_str(&name, "finish_hours") || chars_eq_str(&name, "finish_minutes") {
            let hours = chars_eq_str(&name, "finish_hours");
            match &options[i].value {
                OptionValue::Unsigned(n) => {
                    let base: u32 = match splits.finish {
                        Some(f) => f,
                        None => 0,
                    };
                    match add_minutes(base, *n, hours) {
                        Some(v) => {
                            splits.finish = Some(v);
                            Ok(())
                        },
                        None => {
                            return None;
                        },
                    }
                },
                OptionValue::Missing => Ok(()),
                _ => if hours {
                    Err(text_of("WhitelistError: parse u64 for finish hours option."))
                } else {
                    Err(text_of("WhitelistError: parse u64 for finish minutes option."))
                },
            }
        } else {
            match threshold_option_exec(&name) {
                Some((f, hours, label)) => match &options[i].value {
                    OptionValue::Unsigned(n) => {
                        let current = if f == 0 {
                            splits.adventuring_time
                        } else if f == 1 {
                            splits.beaconator
                        } else {
                            splits.hdwgh
                        };
                        let v = match add_minutes(current, *n, hours) {
                            Some(v) => v,
                            None => {
                                return None;
                            },
                        };
                        if f == 0 {
                            splits.adventuring_time = v;
                        } else if f == 1 {
                            splits.beaconator = v;
                        } else {
                            splits.hdwgh = v;
                        }
                        Ok(())
                    },
                    OptionValue::Missing => {
                        if !chars_eq_str(&a, "remove") {
                            let mut m: Vec<char> = Vec::new();
                            push_str(&mut m, "WhitelistError: get value for ");
                            push_str(&mut m, label);
                            push_str(&mut m, " option.");
                            Err(string_of(&m))
                        } else {
                            Ok(())
                        }
                    },
                    _ => {
                        let mut m: Vec<char> = Vec::new();
                        push_str(&mut m, "WhitelistError: parse u64 for ");
                        push_str(&mut m, label);
                        push_str(&mut m, " option.");
                        Err(string_of(&m))
                    },
                },
                None => {
                    let mut m: Vec<char> = Vec::new();
                    push_str(&mut m, "Unrecognized command option: '");
                    push_all(&mut m, &name);
                    push_str(&mut m, "'");
                    Err(string_of(&m))
                },
            }
        };
        match step {
            Ok(()) => {},
            Err(e) => {
                return Some(Err(e));
            },
        }
        i = i + 1;
    }
    assert(ov.take(options.len() as int) == ov);
    Some(Ok(AaWhitelistRequest { action, ign, splits }))
}

/// What `/whitelist` is asked to do once the guild's channels and the
/// options are read: the runner-names channel, the action, the runner and
/// thresholds; or the error; `None` where reading the options overflows.
pub open spec fn aa_whitelist_target(
    guild_id: u64,
    channels: Option<Seq<(Seq<char>, u64)>>,
    opts: Seq<(Seq<char>, OptionValueView)>,
) -> Option<Result<(u64, Seq<char>, Seq<char>, PlayerSplitsData), Seq<char>>> {
    match channels {
        None => Some(Err("WhitelistError: get channels for guild id: "@ + decimal(guild_id as nat))),
        Some(c) => match aa_options(opts) {
            None => None,
            Some(Err(e)) => Some(Err(e)),
            Some(Ok((action, ign, sp))) => match first_channel(c, PACEMANBOT_RUNNER_NAMES_CHANNEL@) {
                None => Some(
                    Err(
                        "WhitelistError: find #"@ + PACEMANBOT_RUNNER_NAMES_CHANNEL@ + " in guild id: "@ + decimal(
                            guild_id as nat,
                        ),
                    ),
                ),
                Some(ch) => Some(Ok((ch, action, ign, sp))),
            },
        },
    }
}

/// A whitelist request that can be applied.
pub struct AaWhitelistTarget {
    pub channel: u64,
    pub action: String,
    pub ign: String,
    pub splits: PlayerSplitsData,
}

/// Reads what `/whitelist` is asked to do. `channels` is `None` where the
/// guild's channels could not be read. The configuration message is then
/// read from the channel, and `apply_aa_whitelist` makes the update. `None`
/// where a threshold overflows, on which the command panics.
pub fn aa_whitelist_request(guild_id: u64, channels: Option<Vec<ChannelInfo>>, options: &Vec<CommandOption>) -> (r:
    Option<Result<AaWhitelistTarget, String>>)
    ensures
        ({
            let t = aa_whitelist_target(
                guild_id,
                match channels {
                    Some(c) => Some(channel_views(c@)),
                    None => None,
                },
                options_view(options@),
            );
            match r {
                None => t is None,
                Some(Ok(w)) => t == Some(
                    Ok::<(u64, Seq<char>, Seq<char>, PlayerSplitsData), Seq<char>>(
                        (w.channel, w.action@, w.ign@, w.splits),
                    ),
                ),
                Some(Err(e)) => t == Some(Err::<(u64, Seq<char>, Seq<char>, PlayerSplitsData), Seq<char>>(e@)),
            }
        }),
{
    let channels = match channels {
        Some(c) => c,
        None => {
            let mut m: Vec<char> = Vec::new();
            push_str(&mut m, "WhitelistError: get channels for guild id: ");
            push_decimal(&mut m, guild_id);
            return Some(Err(string_of(&m)));
        },
    };
    let req = match parse_aa_whitelist_options(options) {
        None => return None,
        Some(Ok(q)) => q,
        Some(Err(e)) => return Some(Err(e)),
    };
    let channel = match find_channel(&channels, PACEMANBOT_RUNNER_NAMES_CHANNEL) {
        Some(id) => id,
        None => {
            let mut m: Vec<char> = Vec::new();
            push_str(&mut m, "WhitelistError: find #");
            push_str(&mut m, PACEMANBOT_RUNNER_NAMES_CHANNEL);
            push_str(&mut m, " in guild id: ");
            push_decimal(&mut m, guild_id);
            return Some(Err(string_of(&m)));
        },
    };
    Some(Ok(AaWhitelistTarget { channel, action: req.action, ign: req.ign, splits: req.splits }))
}

/// No option names a finish threshold.
pub open spec fn no_finish_option(opts: Seq<(Seq<char>, OptionValueView)>) -> bool {
    forall|i: int| 0 <= i < opts.len() ==> #[trigger] opts[i].0 != "finish_hours"@ && opts[i].0 != "finish_minutes"@
}

/// Where neither finish option is given, the runner gets no finish
/// threshold.
pub proof fn lemma_skipped_finish_is_not_written(opts: Seq<(Seq<char>, OptionValueView)>)
    requires
        no_finish_option(opts),
    ensures
        aa_options(opts) matches Some(Ok((_, _, sp))) ==> sp.finish is None,
    decreases opts.len(),
{
    if opts.len() > 0 {
        let prev = opts.drop_last();
        assert forall|i: int| 0 <= i < prev.len() implies #[trigger] prev[i].0 != "finish_hours"@ && prev[i].0
            != "finish_minutes"@ by {
            assert(prev[i] == opts[i]);
        }
        lemma_skipped_finish_is_not_written(prev);
        assert(opts.last() == opts[opts.len() - 1]);
    }
}

/// The lines of the runners, in order.
pub open spec fn aa_lines(entries: Seq<(Seq<char>, PlayerSplitsData)>) -> Seq<Seq<char>> {
    entries.map_values(|e: (Seq<char>, PlayerSplitsData)| aa_line(e.0, e.1))
}

/// The thresholds of a configuration line, after the colon.
pub open spec fn aa_numbers(p: PlayerSplitsData) -> Seq<char> {
    decimal(p.adventuring_time as nat) + seq!['/'] + decimal(p.beaconator as nat) + seq!['/'] + decimal(
        p.hdwgh as nat,
    ) + match p.finish {
        Some(f) => seq!['/'] + decimal(f as nat),
        None => Seq::<char>::empty(),
    }
}

proof fn lemma_aa_numbers(p: PlayerSplitsData)
    ensures
        lacks(aa_numbers(p), ':'),
        lacks(aa_numbers(p), ' '),
        aa_numbers(p).len() > 0,
        is_ascii_digit(aa_numbers(p).last()),
        split_by(aa_numbers(p), seq!['/']) == match p.finish {
            Some(f) => seq![
                decimal(p.adventuring_time as nat),
                decimal(p.beaconator as nat),
                decimal(p.hdwgh as nat),
                decimal(f as nat),
            ],
            None => seq![decimal(p.adventuring_time as nat), decimal(p.beaconator as nat), decimal(p.hdwgh as nat)],
        },
{
    let a = decimal(p.adventuring_time as nat);
    let b = decimal(p.beaconator as nat);
    let c = decimal(p.hdwgh as nat);
    let fin = match p.finish {
        Some(f) => seq!['/'] + decimal(f as nat),
        None => Seq::<char>::empty(),
    };
    let tail2 = c + fin;
    let tail = b + seq!['/'] + tail2;
    let rest = aa_numbers(p);
    assert(rest =~= a + seq!['/'] + tail);
    lemma_decimal_digits(p.adventuring_time as nat);
    lemma_decimal_digits(p.beaconator as nat);
    lemma_decimal_digits(p.hdwgh as nat);
    lemma_decimal_lacks(p.adventuring_time as nat, ':');
    lemma_decimal_lacks(p.adventuring_time as nat, ' ');
    lemma_decimal_lacks(p.adventuring_time as nat, '/');
    lemma_decimal_lacks(p.beaconator as nat, ':');
    lemma_decimal_lacks(p.beaconator as nat, ' ');
    lemma_decimal_lacks(p.beaconator as nat, '/');
    lemma_decimal_lacks(p.hdwgh as nat, ':');
    lemma_decimal_lacks(p.hdwgh as nat, ' ');
    lemma_decimal_lacks(p.hdwgh as nat, '/');
    match p.finish {
        Some(f) => {
            lemma_decimal_digits(f as nat);
            lemma_decimal_lacks(f as nat, ':');
            lemma_decimal_lacks(f as nat, ' ');
            lemma_decimal_lacks(f as nat, '/');
            assert(rest.last() == decimal(f as nat)[decimal(f as nat).len() - 1]);
        },
        None => {
            assert(rest.last() == c[c.len() - 1]);
        },
    }
    assert forall|i: int| 0 <= i < rest.len() implies rest[i] != ':' && rest[i] != ' ' by {
        if i < a.len() {
            assert(rest[i] == a[i]);
        } else if i > a.len() && i < a.len() + 1 + b.len() {
            assert(rest[i] == b[i - a.len() - 1]);
        } else if i > a.len() + b.len() + 1 && i < a.len() + b.len() + 2 + c.len() {
            assert(rest[i] == c[i - a.len() - b.len() - 2]);
        } else if i >= a.len() + b.len() + 2 + c.len() {
            assert(rest[i] == fin[i - a.len() - b.len() - 2 - c.len()]);
            match p.finish {
                Some(f) => {
                    if i > a.len() + b.len() + 2 + c.len() {
                        assert(fin[i - a.len() - b.len() - 2 - c.len()] == decimal(f as nat)[i - a.len() - b.len()
                            - 3 - c.len()]);
                    }
                },
                None => {},
            }
        }
    }
    lemma_split_at_first(a, '/', tail);
    lemma_split_at_first(b, '/', tail2);
    match p.finish {
        Some(f) => {
            let d = decimal(f as nat);
            assert(tail2 == c + seq!['/'] + d);
            lemma_split_at_first(c, '/', d);
            lemma_split_lacking(d, '/');
            assert(split_by(rest, seq!['/']) =~= seq![a, b, c, d]);
        },
        None => {
            assert(tail2 == c);
            lemma_split_lacking(c, '/');
            assert(split_by(rest, seq!['/']) =~= seq![a, b, c]);
        },
    }
}

/// Reading a runner's configuration line gives the runner back.
pub proof fn lemma_aa_line_reads_back(k: Seq<char>, p: PlayerSplitsData)
    requires
        is_plain_runner_key(k),
    ensures
        aa_config_line(aa_line(k, p)) == Ok::<(Seq<char>, PlayerSplitsData), Seq<char>>((k, p)),
{
    let rest = aa_numbers(p);
    let line = aa_line(k, p);
    assert(line =~= k + seq![':'] + rest);
    lemma_aa_numbers(p);
    assert(line.last() == rest.last());
    assert(!is_whitespace(line[0])) by {
        if k.len() == 0 {
            assert(line[0] == ':');
        } else {
            assert(line[0] == k[0]);
        }
    }
    assert(skip_space(line, 0) == 0);
    assert(trim_end_at(line, line.len() as int) == line.len());
    assert(trimmed(line) == line) by {
        assert(line.subrange(0, line.len() as int) == line);
    }
    assert(lacks(line, ' ')) by {
        assert forall|i: int| 0 <= i < line.len() implies line[i] != ' ' by {
            if i < k.len() {
                assert(line[i] == k[i]);
            } else if i > k.len() {
                assert(line[i] == rest[i - k.len() - 1]);
            }
        }
    }
    lemma_without_char_lacking(line, ' ');
    lemma_split_at_first(k, ':', rest);
    lemma_split_lacking(rest, ':');
    assert(split_by(line, seq![':']) == seq![k, rest]);
    lemma_parse_decimal(p.adventuring_time as nat, u32_max());
    lemma_parse_decimal(p.beaconator as nat, u32_max());
    lemma_parse_decimal(p.hdwgh as nat, u32_max());
    match p.finish {
        Some(f) => {
            lemma_parse_decimal(f as nat, u32_max());
        },
        None => {},
    }
}

proof fn lemma_aa_line_lacks_newline(k: Seq<char>, p: PlayerSplitsData)
    requires
        lacks(k, '\n'),
    ensures
        lacks(aa_line(k, p), '\n'),
{
    let line = aa_line(k, p);
    let a = decimal(p.adventuring_time as nat);
    let b = decimal(p.beaconator as nat);
    let c = decimal(p.hdwgh as nat);
    lemma_decimal_lacks(p.adventuring_time as nat, '\n');
    lemma_decimal_lacks(p.beaconator as nat, '\n');
    lemma_decimal_lacks(p.hdwgh as nat, '\n');
    assert forall|i: int| 0 <= i < line.len() implies line[i] != '\n' by {
        if i < k.len() {
            assert(line[i] == k[i]);
        } else if i > k.len() && i < k.len() + 1 + a.len() {
            assert(line[i] == a[i - k.len() - 1]);
        } else if i > k.len() + a.len() + 1 && i < k.len() + a.len() + 2 + b.len() {
            assert(line[i] == b[i - k.len() - a.len() - 2]);
        } else if i > k.len() + a.len() + b.len() + 2 && i < k.len() + a.len() + b.len() + 3 + c.len() {
            assert(line[i] == c[i - k.len() - a.len() - b.len() - 3]);
        } else if i > k.len() + a.len() + b.len() + 3 + c.len() {
            match p.finish {
                Some(f) => {
                    lemma_decimal_lacks(f as nat, '\n');
                    assert(line[i] == decimal(f as nat)[i - k.len() - a.len() - b.len() - c.len() - 4]);
                },
                None => {},
            }
        }
    }
}

proof fn lemma_aa_text_lines(entries: Seq<(Seq<char>, PlayerSplitsData)>, y: Seq<char>)
    requires
        forall|i: int| 0 <= i < entries.len() ==> lacks(#[trigger] entries[i].0, '\n'),
    ensures
        split_by(aa_config_text(entries) + seq!['\n'] + y, seq!['\n']) == seq![Seq::<char>::empty()] + aa_lines(
            entries,
        ) + split_by(y, seq!['\n']),
    decreases entries.len(),
{
    if entries.len() == 0 {
        lemma_split_at_first(Seq::<char>::empty(), '\n', y);
        assert(aa_config_text(entries) + seq!['\n'] + y == Seq::<char>::empty() + seq!['\n'] + y);
        assert(aa_lines(entries) =~= Seq::<Seq<char>>::empty());
    } else {
        let e2 = entries.drop_last();
        let (k, p) = entries.last();
        let l = aa_line(k, p);
        assert(lacks(k, '\n')) by {
            assert(entries[entries.len() - 1].0 == k);
        }
        lemma_aa_line_lacks_newline(k, p);
        assert forall|i: int| 0 <= i < e2.len() implies lacks(#[trigger] e2[i].0, '\n') by {
            assert(e2[i] == entries[i]);
        }
        lemma_aa_text_lines(e2, l + seq!['\n'] + y);
        lemma_split_at_first(l, '\n', y);
        assert(aa_config_text(entries) + seq!['\n'] + y == aa_config_text(e2) + seq!['\n'] + (l + seq!['\n'] + y));
        assert(aa_lines(entries) == aa_lines(e2).push(l));
        assert(seq![Seq::<char>::empty()] + aa_lines(e2) + (seq![l] + split_by(y, seq!['\n']))
            =~= seq![Seq::<char>::empty()] + aa_lines(entries) + split_by(y, seq!['\n']));
    }
}

proof fn lemma_aa_fenced_lines(entries: Seq<(Seq<char>, PlayerSplitsData)>)
    requires
        forall|i: int| 0 <= i < entries.len() ==> lacks(#[trigger] entries[i].0, '\n'),
    ensures
        message_lines(fenced(aa_config_text(entries))) == seq![fence(), Seq::<char>::empty()] + aa_lines(entries)
            + seq![fence()],
{
    let t = aa_config_text(entries);
    assert(fenced(t) == fence() + seq!['\n'] + (t + seq!['\n'] + fence()));
    assert(lacks(fence(), '\n'));
    lemma_split_at_first(fence(), '\n', t + seq!['\n'] + fence());
    lemma_aa_text_lines(entries, fence());
    lemma_split_lacking(fence(), '\n');
    assert(seq![fence()] + (seq![Seq::<char>::empty()] + aa_lines(entries) + seq![fence()])
        =~= seq![fence(), Seq::<char>::empty()] + aa_lines(entries) + seq![fence()]);
}

proof fn lemma_read_aa_lines(entries: Seq<(Seq<char>, PlayerSplitsData)>)
    requires
        keys_distinct(entries),
        forall|i: int| 0 <= i < entries.len() ==> is_plain_runner_key(#[trigger] entries[i].0),
    ensures
        aa_runners_from_lines(seq![fence(), Seq::<char>::empty()] + aa_lines(entries)) == Ok::<
            Map<Seq<char>, PlayerSplitsData>,
            Seq<char>,
        >(entries_map(entries)),
    decreases entries.len(),
{
    lemma_fence_is_fence();
    let head = seq![fence(), Seq::<char>::empty()];
    if entries.len() == 0 {
        assert(head + aa_lines(entries) =~= head);
        assert(head.drop_last() =~= seq![fence()]);
        assert(head.drop_last().drop_last() =~= Seq::<Seq<char>>::empty());
        assert(aa_runners_from_lines(head.drop_last().drop_last()) == Ok::<
            Map<Seq<char>, PlayerSplitsData>,
            Seq<char>,
        >(Map::empty()));
        assert(head.drop_last().last() == fence());
        assert(!is_config_line(fence()));
        assert(aa_runners_from_lines(head.drop_last()) == Ok::<Map<Seq<char>, PlayerSplitsData>, Seq<char>>(
            Map::empty(),
        ));
        assert(!is_config_line(head.last()));
        assert(entries_map(entries) =~= Map::<Seq<char>, PlayerSplitsData>::empty());
    } else {
        let e2 = entries.drop_last();
        let (k, p) = entries.last();
        assert(entries[entries.len() - 1].0 == k);
        assert forall|i: int| 0 <= i < e2.len() implies is_plain_runner_key(#[trigger] e2[i].0) by {
            assert(e2[i] == entries[i]);
        }
        assert(keys_distinct(e2)) by {
            assert forall|x: int, y: int| 0 <= x < e2.len() && 0 <= y < e2.len() && x != y implies e2[x].0
                != e2[y].0 by {
                assert(e2[x] == entries[x] && e2[y] == entries[y]);
            }
        }
        lemma_read_aa_lines(e2);
        let ls = head + aa_lines(entries);
        assert(ls.drop_last() == head + aa_lines(e2));
        assert(ls.last() == aa_line(k, p));
        lemma_aa_line_reads_back(k, p);
        assert(aa_line(k, p) != fence()) by {
            let l = aa_line(k, p);
            assert(l[k.len() as int] == ':');
            if l == fence() {
                assert(fence()[k.len() as int] == '`');
            }
        }
        assert(aa_line(k, p).len() > 0) by {
            assert(aa_line(k, p)[k.len() as int] == ':');
        }
        assert forall|i: int| 0 <= i < e2.len() implies e2[i].0 != k by {
            assert(e2[i] == entries[i]);
        }
        lemma_push_map(e2, k, p);
        assert(e2.push((k, p)) == entries);
    }
}

/// What `/whitelist` writes reads back as the updated runners: the
/// configuration message of runners with plain names gives those runners
/// again when it is read.
pub proof fn lemma_aa_config_message_reads_back(content: Seq<char>, m: Map<Seq<char>, PlayerSplitsData>)
    requires
        aa_config_message_of(content, m),
        forall|k: Seq<char>| #[trigger] m.contains_key(k) ==> is_plain_runner_key(k),
    ensures
        aa_runners_from_lines(message_lines(content)) == Ok::<Map<Seq<char>, PlayerSplitsData>, Seq<char>>(m),
{
    let entries = choose|entries: Seq<(Seq<char>, PlayerSplitsData)>| #[trigger] keys_distinct(entries)
        && entries_map(entries) == m && sorted_order(entries, Seq::new(entries.len(), |i: int| i))
        && content == fenced(aa_config_text(entries));
    assert forall|i: int| 0 <= i < entries.len() implies is_plain_runner_key(#[trigger] entries[i].0) by {
        lemma_find_key_at(entries, i);
        assert(m.contains_key(entries[i].0));
    }
    lemma_aa_fenced_lines(entries);
    lemma_read_aa_lines(entries);
    lemma_fence_is_fence();
    let ls = seq![fence(), Seq::<char>::empty()] + aa_lines(entries) + seq![fence()];
    assert(ls.drop_last() == seq![fence(), Seq::<char>::empty()] + aa_lines(entries));
    assert(ls.last() == fence());
}

} // verus!
