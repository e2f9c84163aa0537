//! The text of pace messages: names, role mentions, headlines and the
//! lines that carry the pings.

use vstd::prelude::*;

use crate::dispatcher::consts::{
    CREDITS_EMOJI, LIVE_INDICATOR, OFFLINE_INDICATOR, SPECIAL_UNDERSCORE, TWITCH_LINK_PREFIX,
};
use crate::dispatcher::utils::{format_time, time_text};
use crate::text::{chars_of, decimal, push_all, push_decimal, push_str, remove_pattern, string_of, without_pattern};

verus! {

/// `s` with every `from` replaced by `to`.
pub open spec fn replaced_char(s: Seq<char>, from: char, to: char) -> Seq<char> {
    s.map_values(|c: char| if c == from { to } else { c })
}

/// `s` with every `from` replaced by `to` (`str::replace` of one character).
pub fn replace_char(s: &str, from: char, to: char) -> (r: String)
    ensures
        r@ == replaced_char(s@, from, to),
{
    let v = chars_of(s);
    let mut out: Vec<char> = Vec::new();
    for i in 0..v.len()
        invariant
            v@ == s@,
            out@ == replaced_char(s@.take(i as int), from, to),
    {
        let c = v[i];
        if c == from {
            out.push(to);
        } else {
            out.push(c);
        }
        assert(s@.take(i + 1) == s@.take(i as int).push(c));
        assert(out@ =~= replaced_char(s@.take(i + 1), from, to));
    }
    assert(s@.take(v.len() as int) == s@);
    string_of(&out)
}

/// A runner's name as messages show it: `_`, which Discord reads as
/// markup, becomes a look-alike character.
pub open spec fn shown_name(nickname: Seq<char>) -> Seq<char> {
    replaced_char(nickname, '_', SPECIAL_UNDERSCORE)
}

/// The name a message shows for a runner.
pub fn author_name(nickname: &str) -> (r: String)
    ensures
        r@ == shown_name(nickname@),
{
    replace_char(nickname, '_', SPECIAL_UNDERSCORE)
}

/// The link to a runner's stream.
pub fn twitch_link(account: &str) -> (r: String)
    ensures
        r@ == TWITCH_LINK_PREFIX@ + account@,
{
    let mut out: Vec<char> = Vec::new();
    push_str(&mut out, TWITCH_LINK_PREFIX);
    push_str(&mut out, account);
    string_of(&out)
}

/// How Discord writes a mention of the role with this id.
pub open spec fn role_mention(id: u64) -> Seq<char> {
    "<@&"@ + decimal(id as nat) + ">"@
}

fn push_mention(out: &mut Vec<char>, id: u64)
    ensures
        final(out)@ == old(out)@ + role_mention(id),
{
    let ghost start = out@;
    push_str(out, "<@&");
    push_decimal(out, id);
    push_str(out, ">");
    assert(out@ =~= start + role_mention(id));
}

/// The mention of the role with this id.
pub fn mention_role(id: u64) -> (r: String)
    ensures
        r@ == role_mention(id),
{
    let mut out: Vec<char> = Vec::new();
    push_mention(&mut out, id);
    string_of(&out)
}

/// The mentions of these roles, separated by spaces.
pub open spec fn mentions_text(ids: Seq<u64>) -> Seq<char>
    decreases ids.len(),
{
    if ids.len() == 0 {
        Seq::empty()
    } else if ids.len() == 1 {
        role_mention(ids[0])
    } else {
        mentions_text(ids.drop_last()) + " "@ + role_mention(ids.last())
    }
}

fn push_mentions(out: &mut Vec<char>, ids: &Vec<u64>)
    ensures
        final(out)@ == old(out)@ + mentions_text(ids@),
{
    let ghost start = out@;
    assert(ids@.take(0) =~= Seq::<u64>::empty());
    for i in 0..ids.len()
        invariant
            out@ == start + mentions_text(ids@.take(i as int)),
    {
        if i > 0 {
            push_str(out, " ");
        }
        push_mention(out, ids[i]);
        proof {
            let t = ids@.take(i + 1);
            assert(t.drop_last() =~= ids@.take(i as int));
            assert(t.last() == ids@[i as int]);
            if i == 0 {
                assert(t.len() == 1);
            }
            assert(out@ =~= start + mentions_text(t));
        }
    }
    assert(ids@.take(ids.len() as int) =~= ids@);
}

/// The mentions of these roles, separated by spaces.
pub fn join_mentions(ids: &Vec<u64>) -> (r: String)
    ensures
        r@ == mentions_text(ids@),
{
    let mut out: Vec<char> = Vec::new();
    push_mentions(&mut out, ids);
    string_of(&out)
}

/// The mark of a live or an offline runner.
pub open spec fn live_mark(live: bool) -> Seq<char> {
    if live {
        LIVE_INDICATOR@
    } else {
        OFFLINE_INDICATOR@
    }
}

/// The line above a ping: live mark, time, split and runner.
pub open spec fn metadata_text(live: bool, igt: u64, desc: Seq<char>, nickname: Seq<char>) -> Seq<char> {
    live_mark(live) + " "@ + time_text(igt as nat) + " - "@ + desc + " "@ + shown_name(nickname)
}

/// The line above a ping, `{mark} {time} - {split} {runner}`.
pub fn pace_metadata(live: bool, igt: u64, split_desc: &str, nickname: &str) -> (r: String)
    ensures
        r@ == metadata_text(live, igt, split_desc@, nickname@),
{
    let mut out: Vec<char> = Vec::new();
    if live {
        push_str(&mut out, LIVE_INDICATOR);
    } else {
        push_str(&mut out, OFFLINE_INDICATOR);
    }
    push_str(&mut out, " ");
    let t = format_time(igt);
    push_str(&mut out, t.as_str());
    push_str(&mut out, " - ");
    push_str(&mut out, split_desc);
    push_str(&mut out, " ");
    let n = author_name(nickname);
    push_str(&mut out, n.as_str());
    assert(out@ =~= metadata_text(live, igt, split_desc@, nickname@));
    string_of(&out)
}

/// The text that pings: the metadata line, then the mentions in small
/// print.
pub open spec fn ping_text(metadata: Seq<char>, ids: Seq<u64>) -> Seq<char> {
    metadata + "\n-# "@ + mentions_text(ids)
}

/// The text that pings the roles `ids`, under the metadata line.
pub fn ping_content(metadata: &str, ids: &Vec<u64>) -> (r: String)
    ensures
        r@ == ping_text(metadata@, ids@),
{
    let mut out: Vec<char> = Vec::new();
    push_str(&mut out, metadata);
    push_str(&mut out, "\n-# ");
    push_mentions(&mut out, ids);
    assert(out@ =~= ping_text(metadata@, ids@));
    string_of(&out)
}

/// The headline of a pace message: `{emoji}  {time} - {split}`.
pub open spec fn headline_text(emoji: Seq<char>, igt: u64, desc: Seq<char>) -> Seq<char> {
    emoji + "  "@ + time_text(igt as nat) + " - "@ + desc
}

/// The headline of a pace message.
pub fn pace_headline(emoji: &str, igt: u64, split_desc: &str) -> (r: String)
    ensures
        r@ == headline_text(emoji@, igt, split_desc@),
{
    let mut out: Vec<char> = Vec::new();
    push_str(&mut out, emoji);
    push_str(&mut out, "  ");
    let t = format_time(igt);
    push_str(&mut out, t.as_str());
    push_str(&mut out, " - ");
    push_str(&mut out, split_desc);
    assert(out@ =~= headline_text(emoji@, igt, split_desc@));
    string_of(&out)
}

/// The headline of a finish: the credits emoji, the time and `Finish`.
pub fn finish_headline(igt: u64) -> (r: String)
    ensures
        r@ == headline_text(CREDITS_EMOJI@, igt, "Finish"@),
{
    pace_headline(CREDITS_EMOJI, igt, "Finish")
}

/// `content` without the mention of each role of `ids` that a space follows.
pub open spec fn without_mentions(content: Seq<char>, ids: Seq<u64>) -> Seq<char>
    decreases ids.len(),
{
    if ids.len() == 0 {
        content
    } else {
        without_pattern(without_mentions(content, ids.drop_last()), role_mention(ids.last()) + " "@)
    }
}

/// What a sent ping is edited to: the runners' own role mentions that a
/// space follows taken out, then the metadata line.
pub open spec fn edited_ping_text(content: Seq<char>, runner_ids: Seq<u64>, metadata: Seq<char>) -> Seq<char> {
    without_pattern(without_mentions(content, runner_ids), metadata + "\n"@)
}

/// The text a sent ping is edited to, once the runners' own roles have been
/// pinged.
pub fn edited_ping_content(content: &str, runner_ids: &Vec<u64>, metadata: &str) -> (r: String)
    ensures
        r@ == edited_ping_text(content@, runner_ids@, metadata@),
{
    let mut cur = chars_of(content);
    assert(runner_ids@.take(0) =~= Seq::<u64>::empty());
    for i in 0..runner_ids.len()
        invariant
            cur@ == without_mentions(content@, runner_ids@.take(i as int)),
    {
        let mut p: Vec<char> = Vec::new();
        push_mention(&mut p, runner_ids[i]);
        push_str(&mut p, " ");
        cur = remove_pattern(&cur, &p);
        proof {
            let t = runner_ids@.take(i + 1);
            assert(t.drop_last() =~= runner_ids@.take(i as int));
            assert(t.last() == runner_ids@[i as int]);
        }
    }
    assert(runner_ids@.take(runner_ids.len() as int) =~= runner_ids@);
    let mut m: Vec<char> = Vec::new();
    push_str(&mut m, metadata);
    push_str(&mut m, "\n");
    let r = remove_pattern(&cur, &m);
    string_of(&r)
}

} // verus!
