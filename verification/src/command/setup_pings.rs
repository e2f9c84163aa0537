//! `/setup_pings`: a member's pings for one runner's split.

use vstd::prelude::*;
use vstd::string::*;

use crate::cache::consts::{ROLE_PREFIX, ROLE_PREFIX_115, ROLE_PREFIX_17, ROLE_PREFIX_AA};
use crate::cache::guild_cache_entry::Split;
use crate::cache::split::Split as TowerSplit;
use crate::command::command::{options_view, CommandOption, OptionValue, OptionValueView};
use crate::text::{
    chars_eq_str, chars_of, contains, decimal, push_all, push_decimal, push_str, seq_contains, starts_with,
    string_of,
};
use crate::cache::guild_cache_entry::lemma_code_round_trip;
use crate::config::parsers::{
    first_match, in_class, is_letter, is_name_char, lemma_code_letters, lemma_run_end_at,
    lemma_without_lacking_pattern, match_at, read_role, role_core, role_groups, runner_role_core, CharClass,
};
use crate::text::{
    is_ascii_digit, lacks, lemma_decimal_digits, lemma_parse_decimal, lemma_without_char_append,
    lemma_without_char_lacking, without_char, without_pattern,
};

verus! {

/// What the options of `/setup_pings` have set: action, in-game name, split
/// code and time.
pub type PingsOptions = (Seq<char>, Seq<char>, Seq<char>, u8);

/// The errors of `/setup_pings` start with `prefix`.
pub open spec fn pings_text(prefix: Seq<char>, v: OptionValueView, what: Seq<char>) -> Result<Seq<char>, Seq<char>> {
    match v {
        OptionValueView::Text(s) => Ok(s),
        OptionValueView::Missing => Err(
            prefix + "get value for '"@ + what + (if what == "split"@ { "' for command."@ } else { "' for command"@ }),
        ),
        _ => Err(prefix + "convert '"@ + what + "' value to string."@),
    }
}

/// Reads one option of `/setup_pings`; options with other names are
/// ignored.
pub open spec fn pings_option_step(prefix: Seq<char>, st: PingsOptions, name: Seq<char>, v: OptionValueView) -> Result<PingsOptions, Seq<char>> {
    let (action, ign, split, time) = st;
    if name == "action"@ {
        match pings_text(prefix, v, "action"@) {
            Ok(s) => Ok((s, ign, split, time)),
            Err(e) => Err(e),
        }
    } else if name == "ign"@ {
        match pings_text(prefix, v, "ign"@) {
            Ok(s) => Ok((action, s, split, time)),
            Err(e) => Err(e),
        }
    } else if name == "split"@ {
        match pings_text(prefix, v, "split"@) {
            Ok(s) => Ok((action, ign, s, time)),
            Err(e) => Err(e),
        }
    } else if name == "time"@ {
        match v {
            OptionValueView::Unsigned(n) => Ok((action, ign, split, n as u8)),
            OptionValueView::Missing => Err(prefix + "get value for 'time' for command."@),
            _ => Err(prefix + "convert 'time' value to u64"@),
        }
    } else {
        Ok(st)
    }
}

/// Reads the options of `/setup_pings` in order; the first error stops.
pub open spec fn pings_options(prefix: Seq<char>, opts: Seq<(Seq<char>, OptionValueView)>) -> Result<PingsOptions, Seq<char>>
    decreases opts.len(),
{
    if opts.len() == 0 {
        Ok((Seq::empty(), Seq::empty(), Seq::empty(), 0u8))
    } else {
        match pings_options(prefix, opts.drop_last()) {
            Err(e) => Err(e),
            Ok(st) => pings_option_step(prefix, st, opts.last().0, opts.last().1),
        }
    }
}

proof fn lemma_pings_options_error_sticks(prefix: Seq<char>, opts: Seq<(Seq<char>, OptionValueView)>, k: int)
    requires
        0 <= k <= opts.len(),
        pings_options(prefix, opts.take(k)) is Err,
    ensures
        pings_options(prefix, opts) == pings_options(prefix, opts.take(k)),
    decreases opts.len() - k,
{
    if k < opts.len() {
        assert(opts.take(k + 1).drop_last() == opts.take(k));
        lemma_pings_options_error_sticks(prefix, opts, k + 1);
    } else {
        assert(opts.take(k) == opts);
    }
}

fn pings_text_exec(prefix: &str, v: &OptionValue, what: &str) -> (r: Result<String, String>)
    ensures
        match r {
            Ok(s) => pings_text(prefix@, crate::command::command::option_value_view(*v), what@) == Ok::<Seq<char>, Seq<char>>(s@),
            Err(e) => pings_text(prefix@, crate::command::command::option_value_view(*v), what@) == Err::<Seq<char>, Seq<char>>(e@),
        },
{
    match v {
        OptionValue::Text(s) => Ok(s.clone()),
        OptionValue::Missing => {
            let mut m: Vec<char> = Vec::new();
            push_str(&mut m, prefix);
            push_str(&mut m, "get value for '");
            push_str(&mut m, what);
            let w = chars_of(what);
            if chars_eq_str(&w, "split") {
                push_str(&mut m, "' for command.");
            } else {
                push_str(&mut m, "' for command");
            }
            Err(string_of(&m))
        },
        _ => {
            let mut m: Vec<char> = Vec::new();
            push_str(&mut m, prefix);
            push_str(&mut m, "convert '");
            push_str(&mut m, what);
            push_str(&mut m, "' value to string.");
            Err(string_of(&m))
        },
    }
}

fn prefixed(prefix: &str, s: &str) -> (r: String)
    ensures
        r@ == prefix@ + s@,
{
    let mut m: Vec<char> = Vec::new();
    push_str(&mut m, prefix);
    push_str(&mut m, s);
    string_of(&m)
}

/// What the options of `/setup_pings` set.
pub struct PingsRequest {
    pub action: String,
    pub ign: String,
    pub split: String,
    pub time: u8,
}

/// Reads the options of `/setup_pings` in order.
pub fn parse_pings_options(prefix: &str, options: &Vec<CommandOption>) -> (r: Result<PingsRequest, String>)
    ensures
        match r {
            Ok(q) => pings_options(prefix@, options_view(options@)) == Ok::<PingsOptions, Seq<char>>(
                (q.action@, q.ign@, q.split@, q.time),
            ),
            Err(e) => pings_options(prefix@, options_view(options@)) == Err::<PingsOptions, Seq<char>>(e@),
        },
{
    let ghost ov = options_view(options@);
    let mut action = String::new();
    let mut ign = String::new();
    let mut split = String::new();
    let mut time: u8 = 0;
    assert(ov.take(0) =~= Seq::<(Seq<char>, OptionValueView)>::empty());
    let mut i: usize = 0;
    while i < options.len()
        invariant
            i <= options.len(),
            ov == options_view(options@),
            pings_options(prefix@, ov.take(i as int)) == Ok::<PingsOptions, Seq<char>>((action@, ign@, split@, time)),
        decreases options.len() - i,
    {
        assert(ov.take(i + 1).drop_last() == ov.take(i as int));
        assert(ov.take(i + 1).last() == ov[i as int]);
        let name = chars_of(options[i].name.as_str());
        let step: Result<(), String> = if chars_eq_str(&name, "action") {
            match pings_text_exec(prefix, &options[i].value, "action") {
                Ok(s) => {
                    action = s;
                    Ok(())
                },
                Err(e) => Err(e),
            }
        } else if chars_eq_str(&name, "ign") {
            match pings_text_exec(prefix, &options[i].value, "ign") {
                Ok(s) => {
                    ign = s;
                    Ok(())
                },
                Err(e) => Err(e),
            }
        } else if chars_eq_str(&name, "split") {
            match pings_text_exec(prefix, &options[i].value, "split") {
                Ok(s) => {
                    split = s;
                    Ok(())
                },
                Err(e) => Err(e),
            }
        } else if chars_eq_str(&name, "time") {
            match &options[i].value {
                OptionValue::Unsigned(n) => {
                    time = *n as u8;
                    Ok(())
                },
                OptionValue::Missing => Err(prefixed(prefix, "get value for 'time' for command.")),
                _ => Err(prefixed(prefix, "convert 'time' value to u64")),
            }
        } else {
            Ok(())
        };
        match step {
            Ok(()) => {},
            Err(e) => {
                proof {
                    lemma_pings_options_error_sticks(prefix@, ov, i + 1);
                }
                return Err(e);
            },
        }
        i = i + 1;
    }
    assert(ov.take(options.len() as int) == ov);
    Ok(PingsRequest { action, ign, split, time })
}

} // verus!

verus! {

/// What `/setup_pings` does for the member.
pub enum PingsPlan {
    /// Removes the member's other pings for the runner's split, gives the
    /// member the role `role_name` (creating it where the guild lacks it),
    /// and replies.
    AddOrUpdate { role_name: String, reply: String },
    /// Removes the member's pings for the runner's split, deletes the role
    /// `role_name`, and replies.
    Remove { role_name: String, reply: String },
    /// Does nothing (an unknown action).
    Nothing,
}

/// The plan as the contracts see it.
pub ghost enum PingsPlanView {
    AddOrUpdate(Seq<char>, Seq<char>),
    Remove(Seq<char>, Seq<char>),
    Nothing,
}

pub open spec fn plan_view(p: PingsPlan) -> PingsPlanView {
    match p {
        PingsPlan::AddOrUpdate { role_name, reply } => PingsPlanView::AddOrUpdate(role_name@, reply@),
        PingsPlan::Remove { role_name, reply } => PingsPlanView::Remove(role_name@, reply@),
        PingsPlan::Nothing => PingsPlanView::Nothing,
    }
}

/// The name of a runner's own ping role: `*`, split code, minutes, `:0+`
/// and the runner.
pub open spec fn runner_role_name(code: Seq<char>, time: u8, ign: Seq<char>) -> Seq<char> {
    ROLE_PREFIX@ + code + decimal(time as nat) + ":0+"@ + ign
}

/// The first role whose name holds the split code and the runner and starts
/// with the role prefix.
pub open spec fn first_runner_role(names: Seq<Seq<char>>, code: Seq<char>, ign: Seq<char>) -> Option<Seq<char>>
    decreases names.len(),
{
    if names.len() == 0 {
        None
    } else if seq_contains(names[0], code) && ROLE_PREFIX@.is_prefix_of(names[0]) && seq_contains(names[0], ign) {
        Some(names[0])
    } else {
        first_runner_role(names.drop_first(), code, ign)
    }
}

/// What `/setup_pings` does with these options, for a guild that is private
/// or not, a runner who is whitelisted or not, a member who is known or not,
/// and these guild roles. `resolved` is the code and description of the
/// split that `split` names, if any; the errors start with `prefix`.
pub open spec fn pings_plan(
    prefix: Seq<char>,
    resolved: Option<(Seq<char>, Seq<char>)>,
    action: Seq<char>,
    ign: Seq<char>,
    split: Seq<char>,
    time: u8,
    is_private: bool,
    whitelisted: bool,
    has_member: bool,
    role_names: Seq<Seq<char>>,
) -> Result<PingsPlanView, Seq<char>> {
    match resolved {
        None => Err(prefix + "construct Split from str: '"@ + split + "'."@),
        Some((code, desc)) => if is_private && !whitelisted {
            Err(prefix + "Runner with name: '"@ + ign + "' not found in guild."@)
        } else if !has_member {
            Err(prefix + "get member for '/setup_pings'."@)
        } else if action == "add_or_update"@ {
            if time == 0 {
                Err(prefix + "Parameter 'time' is undefined for 'add_or_update'."@)
            } else {
                Ok(
                    PingsPlanView::AddOrUpdate(
                        runner_role_name(code, time, ign),
                        "Added/Updated pings for runner with ign: '"@ + ign + "' for split: '"@ + desc
                            + "' with time: '"@ + decimal(time as nat) + "m'"@,
                    ),
                )
            }
        } else if action == "remove"@ {
            match first_runner_role(role_names, code, ign) {
                None => Err(prefix + "get role name for 'remove' action."@),
                Some(r) => Ok(
                    PingsPlanView::Remove(
                        r,
                        "Removed pings for runner with ign: '"@ + ign + "' for split: '"@ + desc + "'"@,
                    ),
                ),
            }
        } else {
            Ok(PingsPlanView::Nothing)
        },
    }
}

pub open spec fn string_seq_views(v: Seq<String>) -> Seq<Seq<char>> {
    v.map_values(|s: String| s@)
}

/// The first guild role that is the runner's ping role for the split.
pub fn find_runner_role(role_names: &Vec<String>, code: &Vec<char>, ign: &Vec<char>) -> (r: Option<String>)
    ensures
        match r {
            Some(n) => first_runner_role(string_seq_views(role_names@), code@, ign@) == Some(n@),
            None => first_runner_role(string_seq_views(role_names@), code@, ign@) is None,
        },
{
    let ghost names = string_seq_views(role_names@);
    let prefix = chars_of(ROLE_PREFIX);
    let mut i: usize = 0;
    assert(names.skip(0) == names);
    while i < role_names.len()
        invariant
            i <= role_names.len(),
            names == string_seq_views(role_names@),
            prefix@ == ROLE_PREFIX@,
            first_runner_role(names.skip(i as int), code@, ign@) == first_runner_role(names, code@, ign@),
        decreases role_names.len() - i,
    {
        assert(names.skip(i as int)[0] == role_names@[i as int]@);
        assert(names.skip(i as int).drop_first() == names.skip(i + 1));
        let n = chars_of(role_names[i].as_str());
        if contains(&n, code) && starts_with(&n, &prefix) && contains(&n, ign) {
            return Some(role_names[i].clone());
        }
        i = i + 1;
    }
    None
}

fn plan_pings(
    prefix: &str,
    resolved: Option<(String, String)>,
    req: &PingsRequest,
    is_private: bool,
    whitelisted: bool,
    has_member: bool,
    role_names: &Vec<String>,
) -> (r: Result<PingsPlan, String>)
    ensures
        ({
            let p = pings_plan(
                prefix@,
                match resolved {
                    Some((c, d)) => Some((c@, d@)),
                    None => None,
                },
                req.action@,
                req.ign@,
                req.split@,
                req.time,
                is_private,
                whitelisted,
                has_member,
                string_seq_views(role_names@),
            );
            match r {
                Ok(plan) => p == Ok::<PingsPlanView, Seq<char>>(plan_view(plan)),
                Err(e) => p == Err::<PingsPlanView, Seq<char>>(e@),
            }
        }),
{
    let (code, desc) = match resolved {
        Some(cd) => cd,
        None => {
            let mut m: Vec<char> = Vec::new();
            push_str(&mut m, prefix);
            push_str(&mut m, "construct Split from str: '");
            push_str(&mut m, req.split.as_str());
            push_str(&mut m, "'.");
            return Err(string_of(&m));
        },
    };
    if is_private && !whitelisted {
        let mut m: Vec<char> = Vec::new();
        push_str(&mut m, prefix);
        push_str(&mut m, "Runner with name: '");
        push_str(&mut m, req.ign.as_str());
        push_str(&mut m, "' not found in guild.");
        return Err(string_of(&m));
    }
    if !has_member {
        return Err(prefixed(prefix, "get member for '/setup_pings'."));
    }
    let action = chars_of(req.action.as_str());
    if chars_eq_str(&action, "add_or_update") {
        if req.time == 0 {
            return Err(prefixed(prefix, "Parameter 'time' is undefined for 'add_or_update'."));
        }
        let mut name: Vec<char> = Vec::new();
        push_str(&mut name, ROLE_PREFIX);
        push_str(&mut name, code.as_str());
        push_decimal(&mut name, req.time as u64);
        push_str(&mut name, ":0+");
        push_str(&mut name, req.ign.as_str());
        let mut reply: Vec<char> = Vec::new();
        push_str(&mut reply, "Added/Updated pings for runner with ign: '");
        push_str(&mut reply, req.ign.as_str());
        push_str(&mut reply, "' for split: '");
        push_str(&mut reply, desc.as_str());
        push_str(&mut reply, "' with time: '");
        push_decimal(&mut reply, req.time as u64);
        push_str(&mut reply, "m'");
        Ok(PingsPlan::AddOrUpdate { role_name: string_of(&name), reply: string_of(&reply) })
    } else if chars_eq_str(&action, "remove") {
        let c = chars_of(code.as_str());
        let ign = chars_of(req.ign.as_str());
        match find_runner_role(role_names, &c, &ign) {
            None => Err(prefixed(prefix, "get role name for 'remove' action.")),
            Some(role_name) => {
                let mut reply: Vec<char> = Vec::new();
                push_str(&mut reply, "Removed pings for runner with ign: '");
                push_str(&mut reply, req.ign.as_str());
                push_str(&mut reply, "' for split: '");
                push_str(&mut reply, desc.as_str());
                push_str(&mut reply, "'");
                Ok(PingsPlan::Remove { role_name, reply: string_of(&reply) })
            },
        }
    } else {
        Ok(PingsPlan::Nothing)
    }
}

/// The error prefix of `/setup_pings_115`.
pub open spec fn pings_prefix() -> Seq<char> {
    "failed to setup pings: "@
}

/// Decides what `/setup_pings_115` does, for a split code of the 1.15
/// category. `whitelisted` tells whether the guild's runners include the
/// lower-case in-game name, and `role_names` are the guild's role names.
pub fn setup_pings_plan(
    req: &PingsRequest,
    is_private: bool,
    whitelisted: bool,
    has_member: bool,
    role_names: &Vec<String>,
) -> (r: Result<PingsPlan, String>)
    ensures
        ({
            let p = pings_plan(
                pings_prefix(),
                match Split::from_code(req.split@) {
                    Some(sp) => Some((sp.code(), sp.description())),
                    None => None,
                },
                req.action@,
                req.ign@,
                req.split@,
                req.time,
                is_private,
                whitelisted,
                has_member,
                string_seq_views(role_names@),
            );
            match r {
                Ok(plan) => p == Ok::<PingsPlanView, Seq<char>>(plan_view(plan)),
                Err(e) => p == Err::<PingsPlanView, Seq<char>>(e@),
            }
        }),
{
    let resolved = match Split::from_str(req.split.as_str()) {
        Some(sp) => Some((sp.to_str(), sp.desc())),
        None => None,
    };
    plan_pings("failed to setup pings: ", resolved, req, is_private, whitelisted, has_member, role_names)
}

/// The error prefix of the all-advancements `/setup_pings`.
pub open spec fn aa_pings_prefix() -> Seq<char> {
    "SetupPingsError: "@
}

/// Decides what the all-advancements `/setup_pings` does, for a split code
/// of the tower-start category.
pub fn aa_setup_pings_plan(
    req: &PingsRequest,
    is_private: bool,
    whitelisted: bool,
    has_member: bool,
    role_names: &Vec<String>,
) -> (r: Result<PingsPlan, String>)
    ensures
        ({
            let p = pings_plan(
                aa_pings_prefix(),
                match TowerSplit::from_code(req.split@) {
                    Some(sp) => Some((sp.code(), sp.description())),
                    None => None,
                },
                req.action@,
                req.ign@,
                req.split@,
                req.time,
                is_private,
                whitelisted,
                has_member,
                string_seq_views(role_names@),
            );
            match r {
                Ok(plan) => p == Ok::<PingsPlanView, Seq<char>>(plan_view(plan)),
                Err(e) => p == Err::<PingsPlanView, Seq<char>>(e@),
            }
        }),
{
    let resolved = match TowerSplit::from_str(req.split.as_str()) {
        Some(sp) => Some((sp.to_str(), sp.desc())),
        None => None,
    };
    plan_pings("SetupPingsError: ", resolved, req, is_private, whitelisted, has_member, role_names)
}

/// A member's role that is a ping for this runner's split in this category:
/// it starts with `role_prefix` but with no other category's prefix, and
/// holds the runner and the split code.
pub open spec fn is_runner_ping_role(name: Seq<char>, role_prefix: Seq<char>, code: Seq<char>, ign: Seq<char>) -> bool {
    &&& role_prefix.is_prefix_of(name)
    &&& !ROLE_PREFIX_115@.is_prefix_of(name)
    &&& !ROLE_PREFIX_17@.is_prefix_of(name)
    &&& !ROLE_PREFIX_AA@.is_prefix_of(name)
    &&& seq_contains(name, ign)
    &&& seq_contains(name, code)
}

/// Whether a member's role is to be removed before the member's pings for
/// a runner's split change.
pub fn runner_ping_role_to_remove(role_name: &str, role_prefix: &str, split_code: &str, ign: &str) -> (r: bool)
    ensures
        r == is_runner_ping_role(role_name@, role_prefix@, split_code@, ign@),
{
    let n = chars_of(role_name);
    let p = chars_of(role_prefix);
    let p115 = chars_of(ROLE_PREFIX_115);
    let p17 = chars_of(ROLE_PREFIX_17);
    let paa = chars_of(ROLE_PREFIX_AA);
    let i = chars_of(ign);
    let c = chars_of(split_code);
    starts_with(&n, &p) && !starts_with(&n, &p115) && !starts_with(&n, &p17) && !starts_with(&n, &paa)
        && contains(&n, &i) && contains(&n, &c)
}

/// The `/setup_pings_115` command.
pub struct SetupPings;

impl SetupPings {
    pub fn name(&self) -> (r: &'static str)
        ensures
            r@ == "setup_pings_115"@,
    {
        "setup_pings_115"
    }

    pub fn description(&self) -> (r: &'static str)
        ensures
            r@ == "Setup pings for specific runners."@,
    {
        "Setup pings for specific runners."
    }
}

} // verus!

verus! {

/// A runner's ping role that `/setup_pings` creates reads back as a ping of
/// that runner for its split under its time: `*{code}{time}:0+{ign}` is read
/// as the split, `time` minutes, no seconds and the runner, for a name of
/// letters and underscores.
pub proof fn lemma_runner_role_reads_back(sp: Split, time: u8, ign: Seq<char>)
    requires
        ign.len() >= 1,
        forall|i: int| 0 <= i < ign.len() ==> is_name_char(#[trigger] ign[i]),
    ensures
        read_role(runner_role_name(sp.code(), time, ign), true) == Some(
            Ok::<(Split, u8, u8, Seq<char>), Seq<char>>((sp, time, 0u8, ign)),
        ),
{
    reveal_strlit("*");
    reveal_strlit(":0+");
    lemma_code_letters(sp);
    lemma_decimal_digits(time as nat);
    lemma_decimal_digits(0);
    let code = sp.code();
    let dt = decimal(time as nat);
    let zero = decimal(0);
    assert(zero =~= seq!['0']);
    let before = code + dt + seq![':', '0'];
    let rest = before + seq!['+'] + ign;
    let name = runner_role_name(sp.code(), time, ign);
    assert(name =~= seq!['*'] + rest);
    let cl = code.len() as int;
    let c = cl + dt.len();
    assert forall|i: int| 0 <= i < before.len() implies before[i] != '*' && before[i] != ' ' && before[i] != '+'
        && (i < cl ==> is_letter(#[trigger] before[i])) && (cl <= i < c ==> is_ascii_digit(before[i])) && (i == c
        ==> before[i] == ':') && (i == c + 1 ==> before[i] == '0') by {
        if i < cl {
            assert(before[i] == code[i]);
        } else if i < c {
            assert(before[i] == dt[i - cl]);
        }
    }
    assert(lacks(ign, '*') && lacks(ign, ' ') && lacks(ign, '+'));
    assert(lacks(rest, '*') && lacks(rest, ' ')) by {
        assert forall|i: int| 0 <= i < rest.len() implies rest[i] != '*' && rest[i] != ' ' by {
            if i < before.len() {
                assert(rest[i] == before[i]);
            } else if i > before.len() {
                assert(rest[i] == ign[i - before.len() - 1]);
            }
        }
    }
    assert(seq!['*'].is_prefix_of(name)) by {
        assert(name.subrange(0, 1) =~= seq!['*']);
    }
    assert(name.skip(1) =~= rest);
    lemma_without_lacking_pattern(rest, '*');
    lemma_without_char_lacking(rest, ' ');
    assert(role_core(name) == rest);
    let core = before + ign;
    lemma_without_char_append(before + seq!['+'], ign, '+');
    lemma_without_char_append(before, seq!['+'], '+');
    lemma_without_char_lacking(before, '+');
    lemma_without_char_lacking(ign, '+');
    let plus = seq!['+'];
    assert(plus.last() == '+');
    assert(plus.drop_last() =~= Seq::<char>::empty());
    assert(without_char(plus.drop_last(), '+') =~= Seq::<char>::empty());
    assert(without_char(plus, '+') =~= Seq::<char>::empty());
    assert(runner_role_core(name) =~= core);
    let d = c + 2;
    assert forall|i: int| 0 <= i < core.len() implies (i < cl ==> is_letter(#[trigger] core[i])) && (cl <= i < c
        ==> is_ascii_digit(core[i])) && (i == c ==> core[i] == ':') && (i == c + 1 ==> core[i] == '0') && (d <= i
        ==> is_name_char(core[i])) by {
        if i < before.len() {
            assert(core[i] == before[i]);
        } else {
            assert(core[i] == ign[i - before.len()]);
        }
    }
    lemma_run_end_at(core, 0, cl, CharClass::Letter);
    lemma_run_end_at(core, cl, c, CharClass::Digit);
    lemma_run_end_at(core, c + 1, d, CharClass::Digit);
    lemma_run_end_at(core, d, core.len() as int, CharClass::NameChar);
    assert(in_class(core[0], CharClass::Letter));
    assert(match_at(core, 0, true) == Some((cl, c, d, core.len() as int)));
    assert(first_match(core, 0, true) == Some((0int, cl, c, d, core.len() as int)));
    assert(core.subrange(0, cl) =~= code);
    assert(core.subrange(cl, c) =~= dt);
    assert(core.subrange(c + 1, d) =~= zero);
    assert(core.subrange(d, core.len() as int) =~= ign);
    assert(role_groups(core, true) == Some((code, dt, zero, ign)));
    lemma_parse_decimal(time as nat, 255);
    lemma_parse_decimal(0, 255);
    lemma_code_round_trip(sp);
}

} // verus!

