//! Whitelisting runners: the `/whitelist` command and the configuration
//! message it keeps in the runner-names channel.

use vstd::prelude::*;
use vstd::string::*;

use crate::cache::consts::PACEMANBOT_RUNNER_NAMES_CHANNEL;
use crate::cache::runner_splits::RunnerSplits;
use crate::command::command::{options_view, CommandOption, OptionValue, OptionValueView};
use crate::command::utils::{reorder, sort_by_lowercase, sorted_order};
use crate::config::config::{channel_views, find_channel, first_channel, is_config_line, message_lines, ChannelInfo};
use crate::config::parsers::{config_line, extract_name_or_uuid_and_splits_from_config_line};
use crate::name_map::{entries_map, keys_distinct, lemma_find_key_at, lemma_push_map, NameMap};
use crate::text::{
    chars_eq_str, chars_of, decimal, is_ascii_digit, is_whitespace, lacks, lemma_decimal_digits,
    lemma_decimal_lacks, lemma_parse_decimal, lemma_split_at_first, lemma_split_lacking,
    lemma_without_char_lacking, lowercase, push_all, push_decimal, push_str, skip_space, split, split_by,
    string_of, trim_end_at, trimmed, views,
};

verus! {

/// The configuration line of one runner: name, colon, the tower-start and
/// end-enter thresholds separated by `/`, and `/` and the finish threshold
/// where it is set. The configuration-line reader reads it back.
pub open spec fn runner_line(key: Seq<char>, p: RunnerSplits) -> Seq<char> {
    key + seq![':'] + decimal(p.tower_start as nat) + seq!['/'] + decimal(p.end_enter as nat) + match p.finish {
        Some(f) => seq!['/'] + decimal(f as nat),
        None => Seq::<char>::empty(),
    }
}

/// The configuration text of runners in this order: each line after a
/// newline.
pub open spec fn runner_config_text(entries: Seq<(Seq<char>, RunnerSplits)>) -> Seq<char>
    decreases entries.len(),
{
    if entries.len() == 0 {
        Seq::empty()
    } else {
        runner_config_text(entries.drop_last()) + seq!['\n'] + runner_line(entries.last().0, entries.last().1)
    }
}

/// The runners that the configuration lines name, a later line for the same
/// name replacing an earlier one; or the first line's error.
pub open spec fn runners_from_lines(lines: Seq<Seq<char>>) -> Result<Map<Seq<char>, RunnerSplits>, Seq<char>>
    decreases lines.len(),
{
    if lines.len() == 0 {
        Ok(Map::empty())
    } else {
        match runners_from_lines(lines.drop_last()) {
            Err(e) => Err(e),
            Ok(m) => if !is_config_line(lines.last()) {
                Ok(m)
            } else {
                match config_line(lines.last()) {
                    Err(e) => Err(e),
                    Ok((n, sp)) => Ok(m.insert(n, sp)),
                }
            },
        }
    }
}

/// A configuration message: the text in a code block.
pub open spec fn fenced(text: Seq<char>) -> Seq<char> {
    seq!['`', '`', '`', '\n'] + text + seq!['\n', '`', '`', '`']
}

/// `content` is the configuration message of the runners `m`: each runner
/// once, sorted by lower-case name.
pub open spec fn config_message_of(content: Seq<char>, m: Map<Seq<char>, RunnerSplits>) -> bool {
    exists|entries: Seq<(Seq<char>, RunnerSplits)>| #[trigger] keys_distinct(entries) && entries_map(entries) == m
        && sorted_order(entries, Seq::new(entries.len(), |i: int| i)) && content == fenced(runner_config_text(entries))
}

fn push_runner_line(out: &mut Vec<char>, key: &Vec<char>, p: RunnerSplits)
    ensures
        final(out)@ == old(out)@ + runner_line(key@, p),
{
    push_all(out, key);
    out.push(':');
    push_decimal(out, p.tower_start as u64);
    out.push('/');
    push_decimal(out, p.end_enter as u64);
    match p.finish {
        Some(f) => {
            out.push('/');
            push_decimal(out, f as u64);
        },
        None => {},
    }
    assert(out@ =~= old(out)@ + runner_line(key@, p));
}

/// Writes the runner configuration: one line per runner, sorted by
/// lower-case name, each after a newline.
pub fn runner_config_contents(players: &NameMap<RunnerSplits>) -> (r: String)
    ensures
        exists|order: Seq<int>| #[trigger]
            sorted_order(players.pairs(), order) && r@ == runner_config_text(reorder(players.pairs(), order)),
{
    let order = sort_by_lowercase(players);
    let ghost o = order@.map_values(|i: usize| i as int);
    let ghost pairs = players.pairs();
    let mut out: Vec<char> = Vec::new();
    for k in 0..order.len()
        invariant
            pairs == players.pairs(),
            o == order@.map_values(|i: usize| i as int),
            sorted_order(pairs, o),
            out@ == runner_config_text(reorder(pairs, o.take(k as int))),
    {
        let idx = order[k];
        assert(o[k as int] == idx as int);
        let key = chars_of(players.name_at(idx).as_str());
        let p = players.value_at(idx);
        out.push('\n');
        push_runner_line(&mut out, &key, p);
        assert(reorder(pairs, o.take(k + 1)).drop_last() == reorder(pairs, o.take(k as int)));
        assert(reorder(pairs, o.take(k + 1)).last() == pairs[idx as int]);
    }
    assert(o.take(order.len() as int) == o);
    string_of(&out)
}

/// Reads the runners that a configuration message lists.
pub fn read_runner_message(content: &str) -> (r: Result<NameMap<RunnerSplits>, String>)
    ensures
        match r {
            Ok(m) => runners_from_lines(message_lines(content@)) == Ok::<Map<Seq<char>, RunnerSplits>, Seq<char>>(m.map()),
            Err(e) => runners_from_lines(message_lines(content@)) == Err::<Map<Seq<char>, RunnerSplits>, Seq<char>>(e@),
        },
{
    let c = chars_of(content);
    let mut nl: Vec<char> = Vec::new();
    nl.push('\n');
    let lines = split(&c, &nl);
    assert(nl@ == seq!['\n']);
    let ghost ls = views(lines@);
    let mut players: NameMap<RunnerSplits> = NameMap::new();
    assert(players.map() =~= Map::<Seq<char>, RunnerSplits>::empty());
    let mut i: usize = 0;
    while i < lines.len()
        invariant
            i <= lines.len(),
            ls == views(lines@),
            ls == message_lines(content@),
            runners_from_lines(ls.take(i as int)) == Ok::<Map<Seq<char>, RunnerSplits>, Seq<char>>(players.map()),
        decreases lines.len() - i,
    {
        assert(ls.take(i + 1).drop_last() == ls.take(i as int));
        assert(ls.take(i + 1).last() == lines@[i as int]@);
        let line = string_of(&lines[i]);
        let is_fence = chars_eq_str(&lines[i], "```");
        if is_fence || lines[i].len() == 0 {
            proof {
                if lines@[i as int]@ != "```"@ {
                    assert(lines@[i as int]@ =~= Seq::<char>::empty());
                }
            }
        } else {
            match extract_name_or_uuid_and_splits_from_config_line(line.as_str()) {
                Ok((name, splits)) => {
                    players.insert(name, splits);
                },
                Err(e) => {
                    proof {
                        lemma_runners_error_sticks(ls, (i + 1) as int);
                    }
                    return Err(e);
                },
            }
        }
        i = i + 1;
    }
    assert(ls.take(lines.len() as int) == ls);
    Ok(players)
}

proof fn lemma_runners_error_sticks(ls: Seq<Seq<char>>, k: int)
    requires
        0 <= k <= ls.len(),
        runners_from_lines(ls.take(k)) is Err,
    ensures
        runners_from_lines(ls) == runners_from_lines(ls.take(k)),
    decreases ls.len() - k,
{
    if k < ls.len() {
        assert(ls.take(k + 1).drop_last() == ls.take(k));
        lemma_runners_error_sticks(ls, k + 1);
    } else {
        assert(ls.take(k) == ls);
    }
}

} // verus!

verus! {

/// The first message of the runner-names channel: whether the bot wrote it,
/// and its text.
pub struct ConfigMessage {
    pub from_bot: bool,
    pub content: String,
}

/// What a whitelist update writes: new text for the existing configuration
/// message, or the text of a new one.
pub struct WhitelistWrite {
    pub edit_existing: bool,
    pub content: String,
}

pub open spec fn not_from_bot_message() -> Seq<char> {
    "failed as the first message in #"@ + PACEMANBOT_RUNNER_NAMES_CHANNEL@ + " is not from the bot."@
}

pub open spec fn nothing_to_remove_message(guild_id: u64) -> Seq<char> {
    "failed to remove names from in guild id: "@ + decimal(guild_id as nat)
}

/// The runners after the update: `key` removed, or set to `splits`; or the
/// error.
pub open spec fn updated_runners(
    guild_id: u64,
    remove: bool,
    key: Seq<char>,
    splits: RunnerSplits,
    message: Option<(bool, Seq<char>)>,
) -> Result<Map<Seq<char>, RunnerSplits>, Seq<char>> {
    match message {
        Some((bot, content)) => if !bot {
            Err(not_from_bot_message())
        } else {
            match runners_from_lines(message_lines(content)) {
                Err(e) => Err(e),
                Ok(m) => Ok(if remove { m.remove(key) } else { m.insert(key, splits) }),
            }
        },
        None => if remove {
            Err(nothing_to_remove_message(guild_id))
        } else {
            Ok(Map::empty().insert(key, splits))
        },
    }
}

pub open spec fn message_view(m: Option<ConfigMessage>) -> Option<(bool, Seq<char>)> {
    match m {
        Some(x) => Some((x.from_bot, x.content@)),
        None => None,
    }
}

/// Applies a whitelist action (`remove`, or anything else to add or update)
/// for `key` to the configuration message, and writes the new configuration.
pub fn apply_whitelist(
    guild_id: u64,
    action: &str,
    key: String,
    splits: RunnerSplits,
    message: Option<ConfigMessage>,
) -> (r: Result<WhitelistWrite, String>)
    ensures
        match r {
            Ok(w) => w.edit_existing == (message is Some) && (updated_runners(
                guild_id,
                action@ == "remove"@,
                key@,
                splits,
                message_view(message),
            ) matches Ok(m) && config_message_of(w.content@, m)),
            Err(e) => updated_runners(guild_id, action@ == "remove"@, key@, splits, message_view(message))
                == Err::<Map<Seq<char>, RunnerSplits>, Seq<char>>(e@),
        },
{
    let a = chars_of(action);
    let remove = chars_eq_str(&a, "remove");
    let edit_existing = message.is_some();
    let mut players: NameMap<RunnerSplits> = match message {
        Some(m) => {
            if !m.from_bot {
                let mut t: Vec<char> = Vec::new();
                push_str(&mut t, "failed as the first message in #");
                push_str(&mut t, PACEMANBOT_RUNNER_NAMES_CHANNEL);
                push_str(&mut t, " is not from the bot.");
                return Err(string_of(&t));
            }
            match read_runner_message(m.content.as_str()) {
                Ok(p) => p,
                Err(e) => return Err(e),
            }
        },
        None => {
            if remove {
                let mut t: Vec<char> = Vec::new();
                push_str(&mut t, "failed to remove names from in guild id: ");
                push_decimal(&mut t, guild_id);
                return Err(string_of(&t));
            }
            let p = NameMap::new();
            assert(p.map() =~= Map::<Seq<char>, RunnerSplits>::empty());
            p
        },
    };
    if remove {
        players.remove(key.as_str());
    } else {
        players.insert(key, splits);
    }
    let text = runner_config_contents(&players);
    let mut out: Vec<char> = Vec::new();
    push_str(&mut out, "```\n");
    push_str(&mut out, text.as_str());
    push_str(&mut out, "\n```");
    proof {
        reveal_strlit("```\n");
        reveal_strlit("\n```");
        use_type_invariant(&players);
        let order = choose|order: Seq<int>| #[trigger]
            sorted_order(players.pairs(), order) && text@ == runner_config_text(reorder(players.pairs(), order));
        crate::command::utils::lemma_reorder_same_map(players.pairs(), order);
        assert(out@ =~= fenced(text@));
        let entries = reorder(players.pairs(), order);
        assert(keys_distinct(entries) && entries_map(entries) == players.map()
            && sorted_order(entries, Seq::new(entries.len(), |i: int| i)) && out@ == fenced(runner_config_text(entries)));
    }
    Ok(WhitelistWrite { edit_existing, content: string_of(&out) })
}

} // verus!

verus! {

/// A runner name that a configuration line keeps as it is: no colon, space
/// or newline, and no white space first.
pub open spec fn is_plain_runner_key(k: Seq<char>) -> bool {
    &&& lacks(k, ':')
    &&& lacks(k, ' ')
    &&& lacks(k, '\n')
    &&& (k.len() == 0 || !is_whitespace(k[0]))
}

/// The lines of the runners, in order.
pub open spec fn runner_lines(entries: Seq<(Seq<char>, RunnerSplits)>) -> Seq<Seq<char>> {
    entries.map_values(|e: (Seq<char>, RunnerSplits)| runner_line(e.0, e.1))
}

/// Reading a runner's configuration line gives the runner back.
pub proof fn lemma_config_line_reads_runner_line(k: Seq<char>, p: RunnerSplits)
    requires
        is_plain_runner_key(k),
    ensures
        config_line(runner_line(k, p)) == Ok::<(Seq<char>, RunnerSplits), Seq<char>>((k, p)),
{
    let a = decimal(p.tower_start as nat);
    let b = decimal(p.end_enter as nat);
    let fin = match p.finish {
        Some(f) => seq!['/'] + decimal(f as nat),
        None => Seq::<char>::empty(),
    };
    let tail = b + fin;
    let rest = a + seq!['/'] + tail;
    let line = runner_line(k, p);
    assert(line == k + seq![':'] + rest);
    lemma_decimal_digits(p.tower_start as nat);
    lemma_decimal_digits(p.end_enter as nat);
    lemma_decimal_lacks(p.tower_start as nat, ':');
    lemma_decimal_lacks(p.tower_start as nat, ' ');
    lemma_decimal_lacks(p.tower_start as nat, '/');
    lemma_decimal_lacks(p.end_enter as nat, ':');
    lemma_decimal_lacks(p.end_enter as nat, ' ');
    lemma_decimal_lacks(p.end_enter as nat, '/');
    match p.finish {
        Some(f) => {
            lemma_decimal_digits(f as nat);
            lemma_decimal_lacks(f as nat, ':');
            lemma_decimal_lacks(f as nat, ' ');
            lemma_decimal_lacks(f as nat, '/');
            assert(fin.last() == decimal(f as nat).last());
        },
        None => {},
    }
    // The line ends with a digit and starts with no white space.
    assert(is_ascii_digit(line.last())) by {
        match p.finish {
            Some(f) => {
                assert(line.last() == decimal(f as nat)[decimal(f as nat).len() - 1]);
            },
            None => {
                assert(line.last() == b[b.len() - 1]);
            },
        }
    }
    assert(!is_whitespace(line[0])) by {
        if k.len() == 0 {
            assert(line[0] == ':');
        } else {
            assert(line[0] == k[0]);
        }
    }
    assert(skip_space(line, 0) == 0);
    assert(trim_end_at(line, line.len() as int) == line.len());
    assert(trimmed(line) == line) by {
        assert(line.subrange(0, line.len() as int) == line);
    }
    assert(lacks(rest, ':') && lacks(rest, ' ')) by {
        assert forall|i: int| 0 <= i < rest.len() implies rest[i] != ':' && rest[i] != ' ' by {
            if i < a.len() {
                assert(rest[i] == a[i]);
            } else if i > a.len() && i < a.len() + 1 + b.len() {
                assert(rest[i] == b[i - a.len() - 1]);
            } else if i >= a.len() + 1 + b.len() {
                assert(rest[i] == fin[i - a.len() - 1 - b.len()]);
                match p.finish {
                    Some(f) => {
                        if i > a.len() + 1 + b.len() {
                            assert(fin[i - a.len() - 1 - b.len()] == decimal(f as nat)[i - a.len() - 2 - b.len()]);
                        }
                    },
                    None => {},
                }
            }
        }
    }
    assert(lacks(line, ' ')) by {
        assert forall|i: int| 0 <= i < line.len() implies line[i] != ' ' by {
            if i < k.len() {
                assert(line[i] == k[i]);
            } else if i > k.len() {
                assert(line[i] == rest[i - k.len() - 1]);
            }
        }
    }
    lemma_without_char_lacking(line, ' ');
    lemma_split_at_first(k, ':', rest);
    lemma_split_lacking(rest, ':');
    let parts = split_by(line, seq![':']);
    assert(parts == seq![k, rest]);
    assert(rest == a + seq!['/'] + tail);
    lemma_split_at_first(a, '/', tail);
    match p.finish {
        Some(f) => {
            let c = decimal(f as nat);
            assert(tail == b + seq!['/'] + c);
            lemma_split_at_first(b, '/', c);
            lemma_split_lacking(c, '/');
            assert(split_by(rest, seq!['/']) == seq![a, b, c]);
            lemma_parse_decimal(f as nat, 255);
        },
        None => {
            assert(tail == b);
            lemma_split_lacking(b, '/');
            assert(split_by(rest, seq!['/']) == seq![a, b]);
        },
    }
    lemma_parse_decimal(p.tower_start as nat, 255);
    lemma_parse_decimal(p.end_enter as nat, 255);
}

} // verus!

verus! {

proof fn lemma_runner_line_lacks_newline(k: Seq<char>, p: RunnerSplits)
    requires
        lacks(k, '\n'),
    ensures
        lacks(runner_line(k, p), '\n'),
        runner_line(k, p).len() > 0,
{
    let line = runner_line(k, p);
    lemma_decimal_lacks(p.tower_start as nat, '\n');
    lemma_decimal_lacks(p.end_enter as nat, '\n');
    let a = decimal(p.tower_start as nat);
    let b = decimal(p.end_enter as nat);
    assert forall|i: int| 0 <= i < line.len() implies line[i] != '\n' by {
        if i < k.len() {
            assert(line[i] == k[i]);
        } else if i > k.len() && i < k.len() + 1 + a.len() {
            assert(line[i] == a[i - k.len() - 1]);
        } else if i > k.len() + a.len() + 1 && i < k.len() + a.len() + 2 + b.len() {
            assert(line[i] == b[i - k.len() - a.len() - 2]);
        } else if i > k.len() + a.len() + 2 + b.len() {
            match p.finish {
                Some(f) => {
                    lemma_decimal_lacks(f as nat, '\n');
                    assert(line[i] == decimal(f as nat)[i - k.len() - a.len() - b.len() - 3]);
                },
                None => {},
            }
        }
    }
}

/// Splitting the runners' text, a newline and `y` into lines gives an empty
/// line, the runners' lines, and the lines of `y`.
proof fn lemma_text_lines(entries: Seq<(Seq<char>, RunnerSplits)>, y: Seq<char>)
    requires
        forall|i: int| 0 <= i < entries.len() ==> lacks(#[trigger] entries[i].0, '\n'),
    ensures
        split_by(runner_config_text(entries) + seq!['\n'] + y, seq!['\n']) == seq![Seq::<char>::empty()]
            + runner_lines(entries) + split_by(y, seq!['\n']),
    decreases entries.len(),
{
    if entries.len() == 0 {
        lemma_split_at_first(Seq::<char>::empty(), '\n', y);
        assert(runner_config_text(entries) + seq!['\n'] + y == Seq::<char>::empty() + seq!['\n'] + y);
        assert(runner_lines(entries) =~= Seq::<Seq<char>>::empty());
    } else {
        let e2 = entries.drop_last();
        let (k, p) = entries.last();
        let l = runner_line(k, p);
        assert(lacks(k, '\n')) by {
            assert(entries[entries.len() - 1].0 == k);
        }
        lemma_runner_line_lacks_newline(k, p);
        assert forall|i: int| 0 <= i < e2.len() implies lacks(#[trigger] e2[i].0, '\n') by {
            assert(e2[i] == entries[i]);
        }
        lemma_text_lines(e2, l + seq!['\n'] + y);
        lemma_split_at_first(l, '\n', y);
        assert(runner_config_text(entries) + seq!['\n'] + y == runner_config_text(e2) + seq!['\n'] + (l
            + seq!['\n'] + y));
        assert(runner_lines(entries) == runner_lines(e2).push(l));
        assert(seq![Seq::<char>::empty()] + runner_lines(e2) + (seq![l] + split_by(y, seq!['\n']))
            =~= seq![Seq::<char>::empty()] + runner_lines(entries) + split_by(y, seq!['\n']));
    }
}

pub open spec fn fence() -> Seq<char> {
    seq!['`', '`', '`']
}

proof fn lemma_fenced_lines(entries: Seq<(Seq<char>, RunnerSplits)>)
    requires
        forall|i: int| 0 <= i < entries.len() ==> lacks(#[trigger] entries[i].0, '\n'),
    ensures
        message_lines(fenced(runner_config_text(entries))) == seq![fence(), Seq::<char>::empty()]
            + runner_lines(entries) + seq![fence()],
{
    let t = runner_config_text(entries);
    assert(fenced(t) == fence() + seq!['\n'] + (t + seq!['\n'] + fence()));
    assert(lacks(fence(), '\n'));
    lemma_split_at_first(fence(), '\n', t + seq!['\n'] + fence());
    lemma_text_lines(entries, fence());
    lemma_split_lacking(fence(), '\n');
    assert(seq![fence()] + (seq![Seq::<char>::empty()] + runner_lines(entries) + seq![fence()])
        =~= seq![fence(), Seq::<char>::empty()] + runner_lines(entries) + seq![fence()]);
}

pub proof fn lemma_fence_is_fence()
    ensures
        fence() == "```"@,
{
    reveal_strlit("```");
    assert(fence() =~= "```"@);
}

/// Reading the runners' lines after the opening lines gives the runners.
proof fn lemma_read_runner_lines(entries: Seq<(Seq<char>, RunnerSplits)>)
    requires
        keys_distinct(entries),
        forall|i: int| 0 <= i < entries.len() ==> is_plain_runner_key(#[trigger] entries[i].0),
    ensures
        runners_from_lines(seq![fence(), Seq::<char>::empty()] + runner_lines(entries)) == Ok::<
            Map<Seq<char>, RunnerSplits>,
            Seq<char>,
        >(entries_map(entries)),
    decreases entries.len(),
{
    lemma_fence_is_fence();
    let head = seq![fence(), Seq::<char>::empty()];
    if entries.len() == 0 {
        assert(head + runner_lines(entries) =~= head);
        assert(head.drop_last() =~= seq![fence()]);
        assert(head.drop_last().drop_last() =~= Seq::<Seq<char>>::empty());
        assert(runners_from_lines(head.drop_last().drop_last()) == Ok::<Map<Seq<char>, RunnerSplits>, Seq<char>>(Map::empty()));
        assert(head.drop_last().last() == fence());
        assert(!is_config_line(fence()));
        assert(runners_from_lines(head.drop_last()) == Ok::<Map<Seq<char>, RunnerSplits>, Seq<char>>(Map::empty()));
        assert(!is_config_line(head.last()));
        assert(entries_map(entries) =~= Map::<Seq<char>, RunnerSplits>::empty());
    } else {
        let e2 = entries.drop_last();
        let (k, p) = entries.last();
        assert(entries[entries.len() - 1].0 == k);
        assert forall|i: int| 0 <= i < e2.len() implies is_plain_runner_key(#[trigger] e2[i].0) by {
            assert(e2[i] == entries[i]);
        }
        assert(keys_distinct(e2)) by {
            assert forall|a: int, b: int| 0 <= a < e2.len() && 0 <= b < e2.len() && a != b implies e2[a].0
                != e2[b].0 by {
                assert(e2[a] == entries[a] && e2[b] == entries[b]);
            }
        }
        lemma_read_runner_lines(e2);
        let ls = head + runner_lines(entries);
        assert(ls.drop_last() == head + runner_lines(e2));
        assert(ls.last() == runner_line(k, p));
        lemma_config_line_reads_runner_line(k, p);
        lemma_runner_line_lacks_newline(k, p);
        assert(runner_line(k, p) != fence()) by {
            let l = runner_line(k, p);
            assert(l[k.len() as int] == ':');
            if l == fence() {
                assert(fence()[k.len() as int] == '`');
            }
        }
        assert forall|i: int| 0 <= i < e2.len() implies e2[i].0 != k by {
            assert(e2[i] == entries[i]);
        }
        lemma_push_map(e2, k, p);
        assert(e2.push((k, p)) == entries);
    }
}

/// What a whitelist update writes reads back as the updated runners: the
/// configuration message of runners with plain names gives those runners
/// again when it is read.
pub proof fn lemma_config_message_reads_back(content: Seq<char>, m: Map<Seq<char>, RunnerSplits>)
    requires
        config_message_of(content, m),
        forall|k: Seq<char>| #[trigger] m.contains_key(k) ==> is_plain_runner_key(k),
    ensures
        runners_from_lines(message_lines(content)) == Ok::<Map<Seq<char>, RunnerSplits>, Seq<char>>(m),
{
    let entries = choose|entries: Seq<(Seq<char>, RunnerSplits)>| #[trigger] keys_distinct(entries)
        && entries_map(entries) == m && sorted_order(entries, Seq::new(entries.len(), |i: int| i))
        && content == fenced(runner_config_text(entries));
    assert forall|i: int| 0 <= i < entries.len() implies is_plain_runner_key(#[trigger] entries[i].0) by {
        lemma_find_key_at(entries, i);
        assert(m.contains_key(entries[i].0));
    }
    lemma_fenced_lines(entries);
    lemma_read_runner_lines(entries);
    lemma_fence_is_fence();
    let ls = seq![fence(), Seq::<char>::empty()] + runner_lines(entries) + seq![fence()];
    assert(ls.drop_last() == seq![fence(), Seq::<char>::empty()] + runner_lines(entries));
    assert(ls.last() == fence());
}

} // verus!

verus! {

/// What the options of `/whitelist` have set so far: action, in-game name,
/// uuid and thresholds.
pub type WhitelistOptions = (Seq<char>, Seq<char>, Seq<char>, RunnerSplits);

pub open spec fn text_option(v: OptionValueView, missing: Seq<char>, wrong: Seq<char>) -> Result<Seq<char>, Seq<char>> {
    match v {
        OptionValueView::Missing => Err(missing),
        OptionValueView::Text(s) => Ok(s),
        _ => Err(wrong),
    }
}

/// Reads one option of `/whitelist`.
pub open spec fn whitelist_option_step(st: WhitelistOptions, name: Seq<char>, v: OptionValueView) -> Result<WhitelistOptions, Seq<char>> {
    let (action, ign, uuid, sp) = st;
    if name == "action"@ {
        match text_option(v, "failed to get value for action option."@, "failed to parse string for action option."@) {
            Ok(s) => Ok((s, ign, uuid, sp)),
            Err(e) => Err(e),
        }
    } else if name == "ign"@ {
        match text_option(v, "failed to get value for ign option."@, "failed to parse string for ign option."@) {
            Ok(s) => Ok((action, s, uuid, sp)),
            Err(e) => Err(e),
        }
    } else if name == "uuid"@ {
        match text_option(v, "failed to get value for uuid option."@, "failed to parse string for uuid option."@) {
            Ok(s) => Ok((action, ign, s, sp)),
            Err(e) => Err(e),
        }
    } else if name == "tower_start"@ {
        match v {
            OptionValueView::Unsigned(n) => Ok(
                (action, ign, uuid, RunnerSplits { tower_start: n as u8, end_enter: sp.end_enter, finish: sp.finish }),
            ),
            OptionValueView::Missing => if action != "remove"@ {
                Err("failed to get value for first structure option."@)
            } else {
                Ok(st)
            },
            _ => Err("failed to parse u64 for tower start option."@),
        }
    } else if name == "end_enter"@ {
        match v {
            OptionValueView::Unsigned(n) => Ok(
                (action, ign, uuid, RunnerSplits { tower_start: sp.tower_start, end_enter: n as u8, finish: sp.finish }),
            ),
            OptionValueView::Missing => if action != "remove"@ {
                Err("failed to get value for end enter option."@)
            } else {
                Ok(st)
            },
            _ => Err("failed to parse u64 for end enter option."@),
        }
    } else if name == "finish"@ {
        match v {
            OptionValueView::Unsigned(n) => Ok(
                (action, ign, uuid, RunnerSplits { tower_start: sp.tower_start, end_enter: sp.end_enter, finish: Some(n as u8) }),
            ),
            OptionValueView::Missing => Ok(
                (action, ign, uuid, RunnerSplits { tower_start: sp.tower_start, end_enter: sp.end_enter, finish: None }),
            ),
            _ => Err("failed to parse u64 for end enter option."@),
        }
    } else {
        Err("unrecognized command option: '"@ + name + "'"@)
    }
}

/// Reads the options of `/whitelist` in order; the first error stops.
pub open spec fn whitelist_options(opts: Seq<(Seq<char>, OptionValueView)>) -> Result<WhitelistOptions, Seq<char>>
    decreases opts.len(),
{
    if opts.len() == 0 {
        Ok((Seq::empty(), Seq::empty(), Seq::empty(), RunnerSplits { tower_start: 0, end_enter: 0, finish: None }))
    } else {
        match whitelist_options(opts.drop_last()) {
            Err(e) => Err(e),
            Ok(st) => whitelist_option_step(st, opts.last().0, opts.last().1),
        }
    }
}

proof fn lemma_whitelist_options_error_sticks(opts: Seq<(Seq<char>, OptionValueView)>, k: int)
    requires
        0 <= k <= opts.len(),
        whitelist_options(opts.take(k)) is Err,
    ensures
        whitelist_options(opts) == whitelist_options(opts.take(k)),
    decreases opts.len() - k,
{
    if k < opts.len() {
        assert(opts.take(k + 1).drop_last() == opts.take(k));
        lemma_whitelist_options_error_sticks(opts, k + 1);
    } else {
        assert(opts.take(k) == opts);
    }
}

fn text_of(s: &str) -> (r: String)
    ensures
        r@ == s@,
{
    String::from_str(s)
}

/// What the options of `/whitelist` set.
pub struct WhitelistRequest {
    pub action: String,
    pub ign: String,
    pub uuid: String,
    pub splits: RunnerSplits,
}

/// Reads the options of `/whitelist` in order.
pub fn parse_whitelist_options(options: &Vec<CommandOption>) -> (r: Result<WhitelistRequest, String>)
    ensures
        match r {
            Ok(q) => whitelist_options(options_view(options@)) == Ok::<WhitelistOptions, Seq<char>>(
                (q.action@, q.ign@, q.uuid@, q.splits),
            ),
            Err(e) => whitelist_options(options_view(options@)) == Err::<WhitelistOptions, Seq<char>>(e@),
        },
{
    let ghost ov = options_view(options@);
    let mut action = String::new();
    let mut ign = String::new();
    let mut uuid = String::new();
    let mut splits = RunnerSplits { tower_start: 0, end_enter: 0, finish: None };
    assert(ov.take(0) =~= Seq::<(Seq<char>, OptionValueView)>::empty());
    let mut i: usize = 0;
    while i < options.len()
        invariant
            i <= options.len(),
            ov == options_view(options@),
            whitelist_options(ov.take(i as int)) == Ok::<WhitelistOptions, Seq<char>>((action@, ign@, uuid@, splits)),
        decreases options.len() - i,
    {
        assert(ov.take(i + 1).drop_last() == ov.take(i as int));
        assert(ov.take(i + 1).last() == ov[i as int]);
        let name = chars_of(options[i].name.as_str());
        let a = chars_of(action.as_str());
        let step: Result<(), String> = if chars_eq_str(&name, "action") {
            match &options[i].value {
                OptionValue::Missing => Err(text_of("failed to get value for action option.")),
                OptionValue::Text(s) => {
                    action = s.clone();
                    Ok(())
                },
                _ => Err(text_of("failed to parse string for action option.")),
            }
        } else if chars_eq_str(&name, "ign") {
            match &options[i].value {
                OptionValue::Missing => Err(text_of("failed to get value for ign option.")),
                OptionValue::Text(s) => {
                    ign = s.clone();
                    Ok(())
                },
                _ => Err(text_of("failed to parse string for ign option.")),
            }
        } else if chars_eq_str(&name, "uuid") {
            match &options[i].value {
                OptionValue::Missing => Err(text_of("failed to get value for uuid option.")),
                OptionValue::Text(s) => {
                    uuid = s.clone();
                    Ok(())
                },
                _ => Err(text_of("failed to parse string for uuid option.")),
            }
        } else if chars_eq_str(&name, "tower_start") {
            match &options[i].value {
                OptionValue::Unsigned(n) => {
                    splits.tower_start = *n as u8;
                    Ok(())
                },
                OptionValue::Missing => if !chars_eq_str(&a, "remove") {
                    Err(text_of("failed to get value for first structure option."))
                } else {
                    Ok(())
                },
                _ => Err(text_of("failed to parse u64 for tower start option.")),
            }
        } else if chars_eq_str(&name, "end_enter") {
            match &options[i].value {
                OptionValue::Unsigned(n) => {
                    splits.end_enter = *n as u8;
                    Ok(())
                },
                OptionValue::Missing => if !chars_eq_str(&a, "remove") {
                    Err(text_of("failed to get value for end enter option."))
                } else {
                    Ok(())
                },
                _ => Err(text_of("failed to parse u64 for end enter option.")),
            }
        } else if chars_eq_str(&name, "finish") {
            match &options[i].value {
                OptionValue::Unsigned(n) => {
                    splits.finish = Some(*n as u8);
                    Ok(())
                },
                OptionValue::Missing => {
                    splits.finish = None;
                    Ok(())
                },
                _ => Err(text_of("failed to parse u64 for end enter option.")),
            }
        } else {
            let mut m: Vec<char> = Vec::new();
            push_str(&mut m, "unrecognized command option: '");
            push_all(&mut m, &name);
            push_str(&mut m, "'");
            Err(string_of(&m))
        };
        match step {
            Ok(()) => {},
            Err(e) => {
                proof {
                    lemma_whitelist_options_error_sticks(ov, i + 1);
                }
                return Err(e);
            },
        }
        i = i + 1;
    }
    assert(ov.take(options.len() as int) == ov);
    Ok(WhitelistRequest { action, ign, uuid, splits })
}

} // verus!

verus! {

/// What `/whitelist` is asked to do, once its options and the guild's
/// channels are read: the runner-names channel, the action, the runner's
/// key (uuid or in-game name) and thresholds; or the error.
pub open spec fn whitelist_target(
    guild_id: u64,
    channels: Option<Seq<(Seq<char>, u64)>>,
    opts: Seq<(Seq<char>, OptionValueView)>,
    use_uuid: bool,
) -> Result<(u64, Seq<char>, Seq<char>, RunnerSplits), Seq<char>> {
    match channels {
        None => Err("failed to get channels for guild id: "@ + decimal(guild_id as nat)),
        Some(c) => match whitelist_options(opts) {
            Err(e) => Err(e),
            Ok((action, ign, uuid, sp)) => match first_channel(c, PACEMANBOT_RUNNER_NAMES_CHANNEL@) {
                None => Err(
                    "failed to find #"@ + PACEMANBOT_RUNNER_NAMES_CHANNEL@ + " in guild id: "@ + decimal(
                        guild_id as nat,
                    ),
                ),
                Some(ch) => Ok((ch, action, if use_uuid { uuid } else { ign }, sp)),
            },
        },
    }
}

/// A whitelist request that can be applied: the runner-names channel, the
/// action, the runner's key and thresholds.
pub struct WhitelistTarget {
    pub channel: u64,
    pub action: String,
    pub key: String,
    pub splits: RunnerSplits,
}

/// Reads what `/whitelist` (by in-game name) or `/whitelist_uuid` (by uuid)
/// is asked to do. `channels` is `None` where the guild's channels could not
/// be read. The configuration message is then read from the channel, and
/// `apply_whitelist` makes the update.
pub fn whitelist_request(
    guild_id: u64,
    channels: Option<Vec<ChannelInfo>>,
    options: &Vec<CommandOption>,
    use_uuid: bool,
) -> (r: Result<WhitelistTarget, String>)
    ensures
        ({
            let t = whitelist_target(
                guild_id,
                match channels {
                    Some(c) => Some(channel_views(c@)),
                    None => None,
                },
                options_view(options@),
                use_uuid,
            );
            match r {
                Ok(w) => t == Ok::<(u64, Seq<char>, Seq<char>, RunnerSplits), Seq<char>>(
                    (w.channel, w.action@, w.key@, w.splits),
                ),
                Err(e) => t == Err::<(u64, Seq<char>, Seq<char>, RunnerSplits), Seq<char>>(e@),
            }
        }),
{
    let channels = match channels {
        Some(c) => c,
        None => {
            let mut m: Vec<char> = Vec::new();
            push_str(&mut m, "failed to get channels for guild id: ");
            push_decimal(&mut m, guild_id);
            return Err(string_of(&m));
        },
    };
    let req = match parse_whitelist_options(options) {
        Ok(q) => q,
        Err(e) => return Err(e),
    };
    let channel = match find_channel(&channels, PACEMANBOT_RUNNER_NAMES_CHANNEL) {
        Some(id) => id,
        None => {
            let mut m: Vec<char> = Vec::new();
            push_str(&mut m, "failed to find #");
            push_str(&mut m, PACEMANBOT_RUNNER_NAMES_CHANNEL);
            push_str(&mut m, " in guild id: ");
            push_decimal(&mut m, guild_id);
            return Err(string_of(&m));
        },
    };
    let key = if use_uuid { req.uuid } else { req.ign };
    Ok(WhitelistTarget { channel, action: req.action, key, splits: req.splits })
}

/// The reply once the configuration is updated.
pub fn whitelist_reply() -> (r: String)
    ensures
        r@ == "Updated config!"@,
{
    String::from_str("Updated config!")
}

/// The `/whitelist_17` command: whitelists runners by in-game name.
pub struct Whitelist;

impl Whitelist {
    pub fn name(&self) -> (r: &'static str)
        ensures
            r@ == "whitelist_17"@,
    {
        "whitelist_17"
    }

    pub fn description(&self) -> (r: &'static str)
        ensures
            r@ == "Whitelist new players or edit old players' configurations in the server based on ign."@,
    {
        "Whitelist new players or edit old players' configurations in the server based on ign."
    }
}

/// The `/whitelist_uuid_aa` command: whitelists runners by uuid.
pub struct WhitelistUUID;

impl WhitelistUUID {
    pub fn name(&self) -> (r: &'static str)
        ensures
            r@ == "whitelist_uuid_aa"@,
    {
        "whitelist_uuid_aa"
    }

    pub fn description(&self) -> (r: &'static str)
        ensures
            r@ == "Whitelist new players or edit old players' configurations in the server based on uuid."@,
    {
        "Whitelist new players or edit old players' configurations in the server based on uuid."
    }
}

} // verus!
