//! The commands that create and remove pace-roles, and `/validate_config`.

use vstd::prelude::*;
use vstd::string::*;

use crate::cache::consts::{PACEMANBOT_CHANNEL, ROLE_PREFIX, ROLE_PREFIX_115, ROLE_PREFIX_17, ROLE_PREFIX_AA};
use crate::cache::guild_cache_entry::{GuildCacheEntry, Split};
use crate::cache::aa_split::AaSplit;
use crate::cache::split::Split as TowerSplit;
use crate::command::command::{options_view, CommandOption, OptionValue, OptionValueView};
use crate::config::config::{is_pace_role_name, role_info_views, RoleInfo};
use crate::config::parsers::{extract_split_from_role_name, pb_role_split, role_name_readable, timed_role};
use crate::text::{
    chars_eq_str, chars_of, contains, decimal, is_ascii_digit, lacks, lemma_decimal_digits, lemma_parse_decimal,
    lemma_without_pattern_suffix, push_all, push_decimal, push_str, seq_contains, starts_with, string_of, without_char, without_pattern,
};
use crate::cache::guild_cache_entry::lemma_code_round_trip;
use crate::config::parsers::{
    first_match, in_class, is_letter, lemma_code_letters, lemma_run_end_at, lemma_without_lacking_pattern, match_at, role_core,
    role_groups, CharClass,
};
use crate::text::lemma_without_char_lacking;

verus! {

/// The colour of the roles the bot creates, 0xRRGGBB for (54, 57, 63).
pub const ROLE_COLOR: u32 = 0x36393F;

/// Whether a role the bot would create under this name is missing: no role
/// of the guild has the name.
pub open spec fn role_missing(names: Seq<Seq<char>>, name: Seq<char>) -> bool {
    forall|i: int| 0 <= i < names.len() ==> names[i] != name
}

pub open spec fn string_views(v: Seq<String>) -> Seq<Seq<char>> {
    v.map_values(|s: String| s@)
}

/// Whether a role named `role_name` has to be created: the guild has no role
/// of that name yet.
pub fn needs_role(existing: &Vec<String>, role_name: &str) -> (r: bool)
    ensures
        r == role_missing(string_views(existing@), role_name@),
{
    let target = chars_of(role_name);
    for i in 0..existing.len()
        invariant
            target@ == role_name@,
            forall|j: int| 0 <= j < i ==> existing@[j]@ != role_name@,
    {
        let n = chars_of(existing[i].as_str());
        if crate::text::chars_eq(&n, &target) {
            assert(string_views(existing@)[i as int] == role_name@);
            return false;
        }
    }
    assert forall|j: int| 0 <= j < existing@.len() implies string_views(existing@)[j] != role_name@ by {
        assert(string_views(existing@)[j] == existing@[j]@);
    }
    true
}

/// A role of the bot's own category: a pace-role that is neither of the
/// 1.15, the 1.7 nor the all-advancements category.
pub open spec fn is_own_role(n: Seq<char>) -> bool {
    is_pace_role_name(n) && !ROLE_PREFIX_AA@.is_prefix_of(n)
}

fn own_role(name: &Vec<char>) -> (r: bool)
    ensures
        r == is_own_role(name@),
{
    let p = chars_of(ROLE_PREFIX);
    let p115 = chars_of(ROLE_PREFIX_115);
    let p17 = chars_of(ROLE_PREFIX_17);
    let paa = chars_of(ROLE_PREFIX_AA);
    starts_with(name, &p) && !starts_with(name, &p115) && !starts_with(name, &p17) && !starts_with(name, &paa)
}

/// The PB pace-roles that `/remove_pb_roles` deletes: the bot's own roles
/// with `PB` in the name that are not a runner's pings.
pub open spec fn pb_roles_removed(roles: Seq<(u64, Seq<char>)>) -> Seq<u64>
    decreases roles.len(),
{
    if roles.len() == 0 {
        Seq::empty()
    } else {
        let rest = pb_roles_removed(roles.drop_last());
        let (id, n) = roles.last();
        if is_own_role(n) && seq_contains(n, "PB"@) && !seq_contains(n, "+"@) {
            rest.push(id)
        } else {
            rest
        }
    }
}

/// The ids of the roles that `/remove_pb_roles` deletes, in order.
pub fn pb_roles_to_remove(roles: &Vec<RoleInfo>) -> (r: Vec<u64>)
    ensures
        r@ == pb_roles_removed(role_info_views(roles@)),
{
    let ghost rv = role_info_views(roles@);
    let pb = chars_of("PB");
    let plus = chars_of("+");
    let mut out: Vec<u64> = Vec::new();
    assert(rv.take(0) =~= Seq::<(u64, Seq<char>)>::empty());
    for i in 0..roles.len()
        invariant
            rv == role_info_views(roles@),
            pb@ == "PB"@,
            plus@ == "+"@,
            out@ == pb_roles_removed(rv.take(i as int)),
    {
        let name = chars_of(roles[i].name.as_str());
        if own_role(&name) && contains(&name, &pb) && !contains(&name, &plus) {
            out.push(roles[i].id);
        }
        proof {
            let t = rv.take(i + 1);
            assert(t.drop_last() =~= rv.take(i as int));
            assert(t.last() == rv[i as int]);
        }
    }
    assert(rv.take(roles.len() as int) =~= rv);
    out
}

/// The reply once the PB pace-roles are deleted.
pub fn remove_pb_roles_reply() -> (r: String)
    ensures
        r@ == "Removed all PB pace-roles!"@,
{
    String::from_str("Removed all PB pace-roles!")
}

/// What the first option of `/remove_roles` names: the split's name and
/// the split.
pub open spec fn remove_roles_split(opts: Seq<(Seq<char>, OptionValueView)>) -> Result<(Seq<char>, Split), Seq<char>> {
    if opts.len() == 0 {
        Err("no options provided."@)
    } else if opts[0].0 != "split_name"@ {
        Err("unrecognized option name."@)
    } else {
        match opts[0].1 {
            OptionValueView::Missing => Err("failed to get value for option name: 'split_name'."@),
            OptionValueView::Text(s) => match Split::from_param(s) {
                Some(sp) => Ok((s, sp)),
                None => Err("unrecognized split name: '"@ + s + "'."@),
            },
            _ => Err("failed to convert 'split_name' into '&str'."@),
        }
    }
}

/// Reads the split that `/remove_roles` removes the roles of.
pub fn split_to_remove(options: &Vec<CommandOption>) -> (r: Result<(String, Split), String>)
    ensures
        match r {
            Ok((n, sp)) => remove_roles_split(options_view(options@)) == Ok::<(Seq<char>, Split), Seq<char>>(
                (n@, sp),
            ),
            Err(e) => remove_roles_split(options_view(options@)) == Err::<(Seq<char>, Split), Seq<char>>(e@),
        },
{
    if options.len() == 0 {
        return Err(String::from_str("no options provided."));
    }
    let ghost ov = options_view(options@);
    assert(ov[0] == (options@[0].name@, crate::command::command::option_value_view(options@[0].value)));
    let name = chars_of(options[0].name.as_str());
    if !chars_eq_str(&name, "split_name") {
        return Err(String::from_str("unrecognized option name."));
    }
    match &options[0].value {
        OptionValue::Missing => Err(String::from_str("failed to get value for option name: 'split_name'.")),
        OptionValue::Text(s) => match Split::from_command_param(s.as_str()) {
            Some(sp) => Ok((s.clone(), sp)),
            None => {
                let mut m: Vec<char> = Vec::new();
                push_str(&mut m, "unrecognized split name: '");
                push_str(&mut m, s.as_str());
                push_str(&mut m, "'.");
                Err(string_of(&m))
            },
        },
        _ => Err(String::from_str("failed to convert 'split_name' into '&str'.")),
    }
}

/// A role that `/remove_roles` reads: one of the bot's own timed roles, no
/// PB role and no runner's pings.
pub open spec fn timed_own_role(n: Seq<char>) -> bool {
    is_own_role(n) && !seq_contains(n, "PB"@) && !seq_contains(n, "+"@)
}

/// The message for a role name that could not be read.
pub open spec fn unreadable_role_message(n: Seq<char>, e: Seq<char>) -> Seq<char> {
    "failed to extract split from role name: '"@ + n + "': "@ + e
}

/// The roles that `/remove_roles` deletes for `split`, in order, and the
/// errors of the role names it could not read.
pub open spec fn split_roles_removed(roles: Seq<(u64, Seq<char>)>, split: Split) -> (Seq<u64>, Seq<Seq<char>>)
    decreases roles.len(),
{
    if roles.len() == 0 {
        (Seq::empty(), Seq::empty())
    } else {
        let (ids, errors) = split_roles_removed(roles.drop_last(), split);
        let (id, n) = roles.last();
        if !timed_own_role(n) {
            (ids, errors)
        } else {
            match timed_role(n) {
                Some(Ok((sp, _, _))) => if sp == split {
                    (ids.push(id), errors)
                } else {
                    (ids, errors)
                },
                Some(Err(e)) => (ids, errors.push(unreadable_role_message(n, e))),
                None => (ids, errors),
            }
        }
    }
}

/// The ids of the roles that `/remove_roles` deletes for `split`, and the
/// errors of the names it could not read.
pub fn split_roles_to_remove(roles: &Vec<RoleInfo>, split: &Split) -> (r: (Vec<u64>, Vec<String>))
    requires
        forall|i: int| 0 <= i < roles.len() && timed_own_role(#[trigger] roles@[i].name@) ==> timed_role(roles@[i].name@) is Some,
    ensures
        ({
            let (ids, errors) = split_roles_removed(role_info_views(roles@), *split);
            r.0@ == ids && string_views(r.1@) == errors
        }),
{
    let ghost rv = role_info_views(roles@);
    let pb = chars_of("PB");
    let plus = chars_of("+");
    let mut ids: Vec<u64> = Vec::new();
    let mut errors: Vec<String> = Vec::new();
    assert(rv.take(0) =~= Seq::<(u64, Seq<char>)>::empty());
    assert(string_views(errors@) =~= Seq::<Seq<char>>::empty());
    for i in 0..roles.len()
        invariant
            rv == role_info_views(roles@),
            pb@ == "PB"@,
            plus@ == "+"@,
            forall|j: int| 0 <= j < roles.len() && timed_own_role(#[trigger] roles@[j].name@) ==> timed_role(roles@[j].name@) is Some,
            ids@ == split_roles_removed(rv.take(i as int), *split).0,
            string_views(errors@) == split_roles_removed(rv.take(i as int), *split).1,
    {
        let ghost old_errors = errors@;
        let name = chars_of(roles[i].name.as_str());
        proof {
            let t = rv.take(i + 1);
            assert(t.drop_last() =~= rv.take(i as int));
            assert(t.last() == rv[i as int]);
            assert(rv[i as int] == (roles@[i as int].id, roles@[i as int].name@));
        }
        if own_role(&name) && !contains(&name, &pb) && !contains(&name, &plus) {
            assert(timed_own_role(roles@[i as int].name@));
            match extract_split_from_role_name(roles[i].name.as_str()) {
                Ok((sp, _, _)) => {
                    if sp == *split {
                        ids.push(roles[i].id);
                    }
                },
                Err(e) => {
                    let mut m: Vec<char> = Vec::new();
                    push_str(&mut m, "failed to extract split from role name: '");
                    push_str(&mut m, roles[i].name.as_str());
                    push_str(&mut m, "': ");
                    push_str(&mut m, e.as_str());
                    errors.push(string_of(&m));
                    assert(string_views(errors@) =~= string_views(old_errors).push(m@));
                },
            }
        }
    }
    assert(rv.take(roles.len() as int) =~= rv);
    (ids, errors)
}

/// Whether every timed role of the bot's own that `/remove_roles` reads can
/// be read without a panic.
pub fn split_removal_readable(roles: &Vec<RoleInfo>) -> (r: bool)
    ensures
        r == (forall|i: int| 0 <= i < roles.len() && timed_own_role(#[trigger] roles@[i].name@) ==> timed_role(roles@[i].name@) is Some),
{
    let pb = chars_of("PB");
    let plus = chars_of("+");
    for i in 0..roles.len()
        invariant
            pb@ == "PB"@,
            plus@ == "+"@,
            forall|j: int| 0 <= j < i && timed_own_role(#[trigger] roles@[j].name@) ==> timed_role(roles@[j].name@) is Some,
    {
        let name = chars_of(roles[i].name.as_str());
        if own_role(&name) && !contains(&name, &pb) && !contains(&name, &plus) {
            if !role_name_readable(roles[i].name.as_str(), false) {
                assert(timed_own_role(roles@[i as int].name@));
                return false;
            }
        }
    }
    true
}

/// The texts of `xs` joined by `sep`.
pub open spec fn joined(xs: Seq<Seq<char>>, sep: Seq<char>) -> Seq<char>
    decreases xs.len(),
{
    if xs.len() == 0 {
        Seq::empty()
    } else if xs.len() == 1 {
        xs[0]
    } else {
        joined(xs.drop_last(), sep) + sep + xs.last()
    }
}

/// The texts of `xs` joined by `sep` (`join`).
pub fn join_texts(xs: &Vec<String>, sep: &str) -> (r: String)
    ensures
        r@ == joined(string_views(xs@), sep@),
{
    let ghost xv = string_views(xs@);
    let mut out: Vec<char> = Vec::new();
    assert(xv.take(0) =~= Seq::<Seq<char>>::empty());
    for i in 0..xs.len()
        invariant
            xv == string_views(xs@),
            out@ == joined(xv.take(i as int), sep@),
    {
        if i > 0 {
            push_str(&mut out, sep);
        }
        push_str(&mut out, xs[i].as_str());
        proof {
            let t = xv.take(i + 1);
            assert(t.drop_last() =~= xv.take(i as int));
            assert(t.last() == xs@[i as int]@);
            if i == 0 {
                assert(t.len() == 1);
            }
        }
    }
    assert(xv.take(xs.len() as int) =~= xv);
    string_of(&out)
}

/// A message followed by the errors met on the way, each on a line of its
/// own after a tab.
pub open spec fn with_errors_text(content: Seq<char>, errors: Seq<Seq<char>>) -> Seq<char> {
    if errors.len() == 0 {
        content
    } else {
        content + "\n\t"@ + joined(errors, "\n\t"@)
    }
}

/// A message with the errors met on the way.
pub fn with_errors(content: &str, errors: &Vec<String>) -> (r: String)
    ensures
        r@ == with_errors_text(content@, string_views(errors@)),
{
    if errors.len() == 0 {
        return String::from_str(content);
    }
    let mut out: Vec<char> = Vec::new();
    push_str(&mut out, content);
    push_str(&mut out, "\n\t");
    let j = join_texts(errors, "\n\t");
    push_str(&mut out, j.as_str());
    string_of(&out)
}

/// The error of a command that succeeded with errors on the way.
pub fn partial_success(errors: &Vec<String>) -> (r: String)
    ensures
        r@ == "succeded but with some errors: "@ + joined(string_views(errors@), "\n\t"@),
{
    let mut out: Vec<char> = Vec::new();
    push_str(&mut out, "succeded but with some errors: ");
    let j = join_texts(errors, "\n\t");
    push_str(&mut out, j.as_str());
    string_of(&out)
}

/// The reply once the roles of a split are deleted.
pub fn remove_roles_reply(split_name: &str) -> (r: String)
    ensures
        r@ == "Removed all roles for split name: "@ + split_name@,
{
    let mut out: Vec<char> = Vec::new();
    push_str(&mut out, "Removed all roles for split name: ");
    push_str(&mut out, split_name);
    string_of(&out)
}

/// What the options of `/setup_roles` have set so far: split name, start
/// and end.
pub type RangeOptions = (Seq<char>, u64, u64);

/// The message for an option of `/setup_roles` without a value; `aa` for
/// the all-advancements command.
pub open spec fn range_missing_text(aa: bool, what: Seq<char>) -> Seq<char> {
    (if aa {
        "SetupRolesError: get value for option name: '"@
    } else {
        "failed to get value for option name: '"@
    }) + what + "'."@
}

/// The message for an option of `/setup_roles` of the wrong kind.
pub open spec fn range_convert_text(aa: bool, what: Seq<char>, kind: Seq<char>) -> Seq<char> {
    (if aa {
        "SetupRolesError: convert '"@
    } else {
        "failed to convert '"@
    }) + what + "' into '"@ + kind + "'."@
}

/// The message for an option that `/setup_roles` does not have.
pub open spec fn range_unknown_text(aa: bool) -> Seq<char> {
    if aa {
        "SetupRolesError: Unrecognized option name."@
    } else {
        "failed to get option name."@
    }
}

/// Reads a whole-number option of `/setup_roles`.
pub open spec fn range_number(v: OptionValueView, what: Seq<char>, aa: bool) -> Result<u64, Seq<char>> {
    match v {
        OptionValueView::Unsigned(n) => Ok(n),
        OptionValueView::Missing => Err(range_missing_text(aa, what)),
        _ => Err(range_convert_text(aa, what, "u64"@)),
    }
}

/// Reads one option of `/setup_roles`.
pub open spec fn range_option_step(st: RangeOptions, name: Seq<char>, v: OptionValueView, aa: bool) -> Result<
    RangeOptions,
    Seq<char>,
> {
    let (split, start, end) = st;
    if name == "split_name"@ {
        match v {
            OptionValueView::Text(s) => Ok((s, start, end)),
            OptionValueView::Missing => Err(range_missing_text(aa, "split_name"@)),
            _ => Err(range_convert_text(aa, "split_name"@, "&str"@)),
        }
    } else if name == "split_start"@ {
        match range_number(v, "split_start"@, aa) {
            Ok(n) => Ok((split, n, end)),
            Err(e) => Err(e),
        }
    } else if name == "split_end"@ {
        match range_number(v, "split_end"@, aa) {
            Ok(n) => Ok((split, start, n)),
            Err(e) => Err(e),
        }
    } else {
        Err(range_unknown_text(aa))
    }
}

/// Reads the options of `/setup_roles` in order; the first error stops.
pub open spec fn range_options(opts: Seq<(Seq<char>, OptionValueView)>, aa: bool) -> Result<RangeOptions, Seq<char>>
    decreases opts.len(),
{
    if opts.len() == 0 {
        Ok((Seq::empty(), 0u64, 0u64))
    } else {
        match range_options(opts.drop_last(), aa) {
            Err(e) => Err(e),
            Ok(st) => range_option_step(st, opts.last().0, opts.last().1, aa),
        }
    }
}

proof fn lemma_range_options_error_sticks(opts: Seq<(Seq<char>, OptionValueView)>, aa: bool, k: int)
    requires
        0 <= k <= opts.len(),
        range_options(opts.take(k), aa) is Err,
    ensures
        range_options(opts, aa) == range_options(opts.take(k), aa),
    decreases opts.len() - k,
{
    if k < opts.len() {
        assert(opts.take(k + 1).drop_last() == opts.take(k));
        lemma_range_options_error_sticks(opts, aa, k + 1);
    } else {
        assert(opts.take(k) == opts);
    }
}

fn range_missing(aa: bool, what: &str) -> (r: String)
    ensures
        r@ == range_missing_text(aa, what@),
{
    let mut m: Vec<char> = Vec::new();
    if aa {
        push_str(&mut m, "SetupRolesError: get value for option name: '");
    } else {
        push_str(&mut m, "failed to get value for option name: '");
    }
    push_str(&mut m, what);
    push_str(&mut m, "'.");
    string_of(&m)
}

fn range_convert(aa: bool, what: &str, kind: &str) -> (r: String)
    ensures
        r@ == range_convert_text(aa, what@, kind@),
{
    let mut m: Vec<char> = Vec::new();
    if aa {
        push_str(&mut m, "SetupRolesError: convert '");
    } else {
        push_str(&mut m, "failed to convert '");
    }
    push_str(&mut m, what);
    push_str(&mut m, "' into '");
    push_str(&mut m, kind);
    push_str(&mut m, "'.");
    string_of(&m)
}

fn range_number_exec(v: &OptionValue, what: &str, aa: bool) -> (r: Result<u64, String>)
    ensures
        match r {
            Ok(n) => range_number(crate::command::command::option_value_view(*v), what@, aa) == Ok::<u64, Seq<char>>(n),
            Err(e) => range_number(crate::command::command::option_value_view(*v), what@, aa) == Err::<u64, Seq<char>>(e@),
        },
{
    match v {
        OptionValue::Unsigned(n) => Ok(*n),
        OptionValue::Missing => Err(range_missing(aa, what)),
        _ => Err(range_convert(aa, what, "u64")),
    }
}

/// What the options of `/setup_roles` set.
pub struct RangeRequest {
    pub split_name: String,
    pub split_start: u64,
    pub split_end: u64,
}

fn parse_range(options: &Vec<CommandOption>, aa: bool) -> (r: Result<RangeRequest, String>)
    ensures
        match r {
            Ok(q) => range_options(options_view(options@), aa) == Ok::<RangeOptions, Seq<char>>(
                (q.split_name@, q.split_start, q.split_end),
            ),
            Err(e) => range_options(options_view(options@), aa) == Err::<RangeOptions, Seq<char>>(e@),
        },
{
    let ghost ov = options_view(options@);
    let mut split_name = String::new();
    let mut split_start: u64 = 0;
    let mut split_end: u64 = 0;
    assert(ov.take(0) =~= Seq::<(Seq<char>, OptionValueView)>::empty());
    let mut i: usize = 0;
    while i < options.len()
        invariant
            i <= options.len(),
            ov == options_view(options@),
            range_options(ov.take(i as int), aa) == Ok::<RangeOptions, Seq<char>>(
                (split_name@, split_start, split_end),
            ),
        decreases options.len() - i,
    {
        assert(ov.take(i + 1).drop_last() == ov.take(i as int));
        assert(ov.take(i + 1).last() == ov[i as int]);
        let name = chars_of(options[i].name.as_str());
        let step: Result<(), String> = if chars_eq_str(&name, "split_name") {
            match &options[i].value {
                OptionValue::Text(s) => {
                    split_name = s.clone();
                    Ok(())
                },
                OptionValue::Missing => Err(range_missing(aa, "split_name")),
                _ => Err(range_convert(aa, "split_name", "&str")),
            }
        } else if chars_eq_str(&name, "split_start") {
            match range_number_exec(&options[i].value, "split_start", aa) {
                Ok(n) => {
                    split_start = n;
                    Ok(())
                },
                Err(e) => Err(e),
            }
        } else if chars_eq_str(&name, "split_end") {
            match range_number_exec(&options[i].value, "split_end", aa) {
                Ok(n) => {
                    split_end = n;
                    Ok(())
                },
                Err(e) => Err(e),
            }
        } else if aa {
            Err(String::from_str("SetupRolesError: Unrecognized option name."))
        } else {
            Err(String::from_str("failed to get option name."))
        };
        match step {
            Ok(()) => {},
            Err(e) => {
                proof {
                    lemma_range_options_error_sticks(ov, aa, i + 1);
                }
                return Err(e);
            },
        }
        i = i + 1;
    }
    assert(ov.take(options.len() as int) == ov);
    Ok(RangeRequest { split_name, split_start, split_end })
}

/// Reads the options of `/setup_roles` in order.
pub fn parse_range_options(options: &Vec<CommandOption>) -> (r: Result<RangeRequest, String>)
    ensures
        match r {
            Ok(q) => range_options(options_view(options@), false) == Ok::<RangeOptions, Seq<char>>(
                (q.split_name@, q.split_start, q.split_end),
            ),
            Err(e) => range_options(options_view(options@), false) == Err::<RangeOptions, Seq<char>>(e@),
        },
{
    parse_range(options, false)
}

/// Reads the options of the all-advancements `/setup_roles` in order.
pub fn parse_aa_range_options(options: &Vec<CommandOption>) -> (r: Result<RangeRequest, String>)
    ensures
        match r {
            Ok(q) => range_options(options_view(options@), true) == Ok::<RangeOptions, Seq<char>>(
                (q.split_name@, q.split_start, q.split_end),
            ),
            Err(e) => range_options(options_view(options@), true) == Err::<RangeOptions, Seq<char>>(e@),
        },
{
    parse_range(options, true)
}

/// The name of the timed role of a split code and time, `*{code}{m}:{s}`.
pub open spec fn timed_role_name(code: Seq<char>, m: nat, s: nat) -> Seq<char> {
    ROLE_PREFIX@ + code + decimal(m) + ":"@ + decimal(s)
}

/// The roles `/setup_roles` creates from `start` to `end`: for each whole
/// minute (or hour) before the end, the role at it and the role `half` later
/// (thirty seconds, written in tens, or thirty minutes); then the role at the
/// end.
pub open spec fn range_role_names(code: Seq<char>, start: nat, end: nat, half: nat) -> Seq<Seq<char>>
    decreases end - start,
{
    if start >= end {
        seq![timed_role_name(code, end, 0)]
    } else {
        seq![timed_role_name(code, start, 0), timed_role_name(code, start, half)] + range_role_names(
            code,
            start + 1,
            end,
            half,
        )
    }
}

fn timed_role_string(code: &str, m: u64, s: u64) -> (r: String)
    ensures
        r@ == timed_role_name(code@, m as nat, s as nat),
{
    let mut out: Vec<char> = Vec::new();
    push_str(&mut out, ROLE_PREFIX);
    push_str(&mut out, code);
    push_decimal(&mut out, m);
    push_str(&mut out, ":");
    push_decimal(&mut out, s);
    assert(out@ =~= timed_role_name(code@, m as nat, s as nat));
    string_of(&out)
}

fn range_roles_of(code: &str, split_start: u64, split_end: u64, half: u64) -> (r: Vec<String>)
    ensures
        string_views(r@) == range_role_names(code@, split_start as nat, split_end as nat, half as nat),
{
    let ghost full = range_role_names(code@, split_start as nat, split_end as nat, half as nat);
    let mut out: Vec<String> = Vec::new();
    let mut m: u64 = split_start;
    assert(string_views(out@) + range_role_names(code@, m as nat, split_end as nat, half as nat) =~= full);
    while m < split_end
        invariant
            split_start <= m,
            m <= split_end || m == split_start,
            full == range_role_names(code@, split_start as nat, split_end as nat, half as nat),
            string_views(out@) + range_role_names(code@, m as nat, split_end as nat, half as nat) == full,
        decreases split_end - m,
    {
        let ghost before = string_views(out@);
        let a = timed_role_string(code, m, 0);
        let b = timed_role_string(code, m, half);
        out.push(a);
        out.push(b);
        proof {
            let rest = range_role_names(code@, (m + 1) as nat, split_end as nat, half as nat);
            let pair = seq![timed_role_name(code@, m as nat, 0), timed_role_name(code@, m as nat, half as nat)];
            assert(range_role_names(code@, m as nat, split_end as nat, half as nat) == pair + rest);
            assert(string_views(out@) =~= before.push(a@).push(b@));
            assert(string_views(out@) + rest =~= before + (pair + rest));
        }
        m = m + 1;
    }
    let ghost before = string_views(out@);
    let last = timed_role_string(code, split_end, 0);
    out.push(last);
    proof {
        assert(range_role_names(code@, m as nat, split_end as nat, half as nat) == seq![
            timed_role_name(code@, split_end as nat, 0),
        ]);
        assert(string_views(out@) =~= before.push(last@));
        assert(string_views(out@) =~= full);
    }
    out
}

/// The names of the roles that `/setup_roles` creates for `split` from
/// minute `split_start` to minute `split_end`, in order.
pub fn range_roles(split: &Split, split_start: u64, split_end: u64) -> (r: Vec<String>)
    ensures
        string_views(r@) == range_role_names(split.code(), split_start as nat, split_end as nat, 3),
{
    let code = split.to_str();
    range_roles_of(code.as_str(), split_start, split_end, 3)
}

/// The names of the roles that the all-advancements `/setup_roles` creates
/// from hour `split_start` to hour `split_end`, in order, for the split whose
/// role names carry the code `split_code`.
pub fn aa_range_roles(split_code: &str, split_start: u64, split_end: u64) -> (r: Vec<String>)
    ensures
        string_views(r@) == range_role_names(split_code@, split_start as nat, split_end as nat, 30),
{
    range_roles_of(split_code, split_start, split_end, 30)
}

/// The reply once the roles of a range are set up; `unit` names what the
/// bounds count.
pub open spec fn range_reply_text(split_name: Seq<char>, start: u64, end: u64, unit: Seq<char>) -> Seq<char> {
    "Pace-roles for split name: "@ + split_name + " with lower bound: "@ + decimal(start as nat) + " "@ + unit
        + " and upper bound: "@ + decimal(end as nat) + " "@ + unit + " have been setup!"@
}

fn range_reply_in(split_name: &str, split_start: u64, split_end: u64, unit: &str) -> (r: String)
    ensures
        r@ == range_reply_text(split_name@, split_start, split_end, unit@),
{
    let mut out: Vec<char> = Vec::new();
    push_str(&mut out, "Pace-roles for split name: ");
    push_str(&mut out, split_name);
    push_str(&mut out, " with lower bound: ");
    push_decimal(&mut out, split_start);
    push_str(&mut out, " ");
    push_str(&mut out, unit);
    push_str(&mut out, " and upper bound: ");
    push_decimal(&mut out, split_end);
    push_str(&mut out, " ");
    push_str(&mut out, unit);
    push_str(&mut out, " have been setup!");
    assert(out@ =~= range_reply_text(split_name@, split_start, split_end, unit@));
    string_of(&out)
}

/// The reply once the roles of a range (in minutes) are set up.
pub fn range_reply(split_name: &str, split_start: u64, split_end: u64) -> (r: String)
    ensures
        r@ == range_reply_text(split_name@, split_start, split_end, "minutes"@),
{
    range_reply_in(split_name, split_start, split_end, "minutes")
}

/// The reply once the roles of a range (in hours) are set up.
pub fn aa_range_reply(split_name: &str, split_start: u64, split_end: u64) -> (r: String)
    ensures
        r@ == range_reply_text(split_name@, split_start, split_end, "hours"@),
{
    range_reply_in(split_name, split_start, split_end, "hours")
}

/// The split of the all-advancements `/setup_roles` (`adventuring_time`,
/// `beaconator` or `hdwgh`), or the error for a name that is no split.
pub fn aa_range_split(split_name: &str) -> (r: Result<AaSplit, String>)
    ensures
        match AaSplit::from_param(split_name@) {
            Some(sp) => r == Ok::<AaSplit, String>(sp),
            None => r matches Err(e) && e@ == "SetupRolesError: Unrecognized split name: '"@ + split_name@ + "'."@,
        },
{
    match AaSplit::from_command_param(split_name) {
        Some(sp) => Ok(sp),
        None => {
            let mut m: Vec<char> = Vec::new();
            push_str(&mut m, "SetupRolesError: Unrecognized split name: '");
            push_str(&mut m, split_name);
            push_str(&mut m, "'.");
            Err(string_of(&m))
        },
    }
}

/// The split of `/setup_roles`, or the error for a name that is no split.
pub fn range_split(split_name: &str) -> (r: Result<Split, String>)
    ensures
        match Split::from_param(split_name@) {
            Some(sp) => r == Ok::<Split, String>(sp),
            None => r matches Err(e) && e@ == "failed to get split name: '"@ + split_name@ + "'."@,
        },
{
    match Split::from_command_param(split_name) {
        Some(sp) => Ok(sp),
        None => {
            let mut m: Vec<char> = Vec::new();
            push_str(&mut m, "failed to get split name: '");
            push_str(&mut m, split_name);
            push_str(&mut m, "'.");
            Err(string_of(&m))
        },
    }
}

/// The PB roles created under `prefix`: `{prefix}{code}PB` for tower start
/// and end enter.
pub open spec fn pb_role_names(prefix: Seq<char>) -> Seq<Seq<char>> {
    seq![prefix + TowerSplit::TowerStart.code() + "PB"@, prefix + TowerSplit::EndEnter.code() + "PB"@]
}

fn pb_roles_under(prefix: &str) -> (r: Vec<String>)
    ensures
        string_views(r@) == pb_role_names(prefix@),
{
    let mut out: Vec<String> = Vec::new();
    let splits = vec![TowerSplit::TowerStart, TowerSplit::EndEnter];
    for i in 0..2usize
        invariant
            splits@ == seq![TowerSplit::TowerStart, TowerSplit::EndEnter],
            string_views(out@) == pb_role_names(prefix@).take(i as int),
    {
        let code = splits[i].to_str();
        let mut n: Vec<char> = Vec::new();
        push_str(&mut n, prefix);
        push_str(&mut n, code.as_str());
        push_str(&mut n, "PB");
        let ghost before = string_views(out@);
        out.push(string_of(&n));
        assert(string_views(out@) =~= before.push(n@));
        assert(pb_role_names(prefix@).take(i + 1) =~= pb_role_names(prefix@).take(i as int).push(
            pb_role_names(prefix@)[i as int],
        ));
    }
    assert(pb_role_names(prefix@).take(2) =~= pb_role_names(prefix@));
    out
}

/// The names of the PB roles that `/setup_pb_roles_17` creates.
pub fn pb_roles() -> (r: Vec<String>)
    ensures
        string_views(r@) == pb_role_names(ROLE_PREFIX@),
{
    pb_roles_under(ROLE_PREFIX)
}

/// The names of the PB roles that the all-advancements `/setup_pb_roles`
/// creates.
pub fn aa_pb_roles() -> (r: Vec<String>)
    ensures
        string_views(r@) == pb_role_names(ROLE_PREFIX_17@),
{
    pb_roles_under(ROLE_PREFIX_17)
}

/// The reply once `/setup_pb_roles_17` has created its roles.
pub fn pb_roles_reply() -> (r: &'static str)
    ensures
        r@ == "PB pace-roles have been setup!"@,
{
    "PB pace-roles have been setup!"
}

/// The reply once the all-advancements `/setup_pb_roles` has created its
/// roles.
pub fn aa_pb_roles_reply() -> (r: &'static str)
    ensures
        r@ == "PB Pace pace-roles have been setup!"@,
{
    "PB Pace pace-roles have been setup!"
}

/// The reply once `/setup_default_roles` has created its roles.
pub fn default_roles_reply() -> (r: &'static str)
    ensures
        r@ == "Default pace-roles have been setup!"@,
{
    "Default pace-roles have been setup!"
}

/// The roles `/setup_default_roles` creates, each under the role prefix.
pub open spec fn default_role_codes() -> Seq<Seq<char>> {
    seq![
        "FS2:0"@, "FS2:3"@, "FS3:0"@, "SS6:0"@, "SS5:3"@, "SS5:0"@, "SS4:3"@, "B8:0"@, "B7:3"@, "B7:0"@,
        "B6:3"@, "B6:0"@, "B5:3"@, "E9:3"@, "E9:0"@, "E8:3"@, "E8:0"@, "EE8:3"@, "EE9:0"@, "EE9:3"@,
        "EE10:0"@,
    ]
}

/// The names of the default roles, in order.
pub fn default_roles() -> (r: Vec<String>)
    ensures
        r@.len() == default_role_codes().len(),
        forall|i: int| 0 <= i < r@.len() ==> #[trigger] r@[i]@ == ROLE_PREFIX@ + default_role_codes()[i],
{
    let codes: Vec<&str> = vec![
        "FS2:0", "FS2:3", "FS3:0", "SS6:0", "SS5:3", "SS5:0", "SS4:3", "B8:0", "B7:3", "B7:0", "B6:3",
        "B6:0", "B5:3", "E9:3", "E9:0", "E8:3", "E8:0", "EE8:3", "EE9:0", "EE9:3", "EE10:0",
    ];
    assert(codes@.len() == 21);
    let ghost cv = codes@.map_values(|c: &str| c@);
    assert(cv =~= default_role_codes());
    let mut out: Vec<String> = Vec::new();
    for i in 0..codes.len()
        invariant
            cv == codes@.map_values(|c: &str| c@),
            cv == default_role_codes(),
            out@.len() == i,
            forall|j: int| 0 <= j < i ==> #[trigger] out@[j]@ == ROLE_PREFIX@ + default_role_codes()[j],
    {
        let mut n: Vec<char> = Vec::new();
        push_str(&mut n, ROLE_PREFIX);
        push_str(&mut n, codes[i]);
        assert(cv[i as int] == codes@[i as int]@);
        out.push(string_of(&n));
    }
    out
}

/// The reply of `/validate_config`: success names the pace channel, and a
/// failure gives the error.
pub open spec fn validation_text(ok: bool, e: Seq<char>) -> Seq<char> {
    if ok {
        "Config validation successful! Bot will send paces in #"@ + PACEMANBOT_CHANNEL@ + "."@
    } else {
        "Error: "@ + e
    }
}

/// The reply of `/validate_config` for the result of reading the guild's
/// configuration.
pub fn validate_config_reply(result: &Result<GuildCacheEntry, String>) -> (r: String)
    ensures
        match result {
            Ok(_) => r@ == validation_text(true, Seq::empty()),
            Err(e) => r@ == validation_text(false, e@),
        },
{
    let mut out: Vec<char> = Vec::new();
    match result {
        Ok(_) => {
            push_str(&mut out, "Config validation successful! Bot will send paces in #");
            push_str(&mut out, PACEMANBOT_CHANNEL);
            push_str(&mut out, ".");
        },
        Err(e) => {
            push_str(&mut out, "Error: ");
            push_str(&mut out, e.as_str());
        },
    }
    string_of(&out)
}

/// `/remove_pb_roles`: removes all PB pace-roles.
pub struct RemovePBRoles;

impl RemovePBRoles {
    pub fn name(&self) -> (r: &'static str)
        ensures
            r@ == "remove_pb_roles"@,
    {
        "remove_pb_roles"
    }

    pub fn description(&self) -> (r: &'static str)
        ensures
            r@ == "Remove all PB pace-roles."@,
    {
        "Remove all PB pace-roles."
    }
}

/// `/remove_roles`: removes the pace-roles of one split.
pub struct RemoveRoles;

impl RemoveRoles {
    pub fn name(&self) -> (r: &'static str)
        ensures
            r@ == "remove_roles"@,
    {
        "remove_roles"
    }

    pub fn description(&self) -> (r: &'static str)
        ensures
            r@ == "Remove all pace-roles based on split."@,
    {
        "Remove all pace-roles based on split."
    }
}

/// `/setup_roles_17`: sets up the timed roles of a split over a range of
/// minutes.
pub struct SetupRoles;

impl SetupRoles {
    pub fn name(&self) -> (r: &'static str)
        ensures
            r@ == "setup_roles_17"@,
    {
        "setup_roles_17"
    }

    pub fn description(&self) -> (r: &'static str)
        ensures
            r@ == "Setup pace-roles based on split, start time and end time in increments of 30s."@,
    {
        "Setup pace-roles based on split, start time and end time in increments of 30s."
    }
}

/// `/setup_pb_roles_17`: sets up the PB roles.
pub struct SetupPBRoles;

impl SetupPBRoles {
    pub fn name(&self) -> (r: &'static str)
        ensures
            r@ == "setup_pb_roles_17"@,
    {
        "setup_pb_roles_17"
    }

    pub fn description(&self) -> (r: &'static str)
        ensures
            r@ == "Setup split PB pace-roles(as specified per runner)."@,
    {
        "Setup split PB pace-roles(as specified per runner)."
    }
}

/// `/setup_default_roles`: sets up the default roles for sub 10.
pub struct SetupDefaultRoles;

impl SetupDefaultRoles {
    pub fn name(&self) -> (r: &'static str)
        ensures
            r@ == "setup_default_roles"@,
    {
        "setup_default_roles"
    }

    pub fn description(&self) -> (r: &'static str)
        ensures
            r@ == "Setup default pace-roles for sub 10."@,
    {
        "Setup default pace-roles for sub 10."
    }
}

/// `/validate_config_115`: checks the guild's configuration.
pub struct ValidateConfig;

impl ValidateConfig {
    pub fn name(&self) -> (r: &'static str)
        ensures
            r@ == "validate_config_115"@,
    {
        "validate_config_115"
    }

    pub fn description(&self) -> (r: &'static str)
        ensures
            r@ == "Check if the current server configuration is valid and if the bot will work properly or not."@,
    {
        "Check if the current server configuration is valid and if the bot will work properly or not."
    }
}

} // verus!

verus! {

/// A role that `/setup_roles` creates reads back as a pace-role of its
/// split at its time: `*{code}{m}:{s}` is read as `m` minutes and `s` tens
/// of seconds, for minutes up to 255 and tens up to 25.
pub proof fn lemma_created_role_reads_back(sp: Split, m: nat, s: nat)
    requires
        m <= 255,
        s <= 25,
    ensures
        timed_role(timed_role_name(sp.code(), m, s)) == Some(Ok::<(Split, u8, u8), Seq<char>>((sp, m as u8, (s * 10) as u8))),
{
    reveal_strlit("*");
    reveal_strlit(":");
    lemma_code_letters(sp);
    lemma_decimal_digits(m);
    lemma_decimal_digits(s);
    let code = sp.code();
    let dm = decimal(m);
    let ds = decimal(s);
    let rest = code + dm + seq![':'] + ds;
    let name = timed_role_name(sp.code(), m, s);
    assert(name =~= seq!['*'] + rest);
    let cl = code.len() as int;
    let c = cl + dm.len();
    assert forall|i: int| 0 <= i < rest.len() implies rest[i] != '*' && rest[i] != ' ' && (i < cl ==> is_letter(
        #[trigger] rest[i],
    )) && (cl <= i < c ==> is_ascii_digit(rest[i])) && (i == c ==> rest[i] == ':') && (c < i ==> is_ascii_digit(
        rest[i],
    )) by {
        if i < cl {
            assert(rest[i] == code[i]);
        } else if i < c {
            assert(rest[i] == dm[i - cl]);
        } else if i > c {
            assert(rest[i] == ds[i - c - 1]);
        }
    }
    assert(lacks(rest, '*'));
    assert(lacks(rest, ' '));
    assert(seq!['*'].is_prefix_of(name)) by {
        assert(name.subrange(0, 1) =~= seq!['*']);
    }
    assert(name.skip(1) =~= rest);
    lemma_without_lacking_pattern(rest, '*');
    assert(without_pattern(name, seq!['*']) == rest);
    lemma_without_char_lacking(rest, ' ');
    assert(role_core(name) == rest);
    lemma_run_end_at(rest, 0, cl, CharClass::Letter);
    lemma_run_end_at(rest, cl, c, CharClass::Digit);
    lemma_run_end_at(rest, c + 1, rest.len() as int, CharClass::Digit);
    assert(in_class(rest[0], CharClass::Letter));
    assert(match_at(rest, 0, false) == Some((cl, c, rest.len() as int, rest.len() as int)));
    assert(first_match(rest, 0, false) == Some((0int, cl, c, rest.len() as int, rest.len() as int)));
    assert(rest.subrange(0, cl) =~= code);
    assert(rest.subrange(cl, c) =~= dm);
    assert(rest.subrange(c + 1, rest.len() as int) =~= ds);
    assert(role_groups(rest, false) == Some((code, dm, ds, rest.subrange(rest.len() as int, rest.len() as int))));
    lemma_parse_decimal(m, 255);
    lemma_parse_decimal(s, 255);
    lemma_code_round_trip(sp);
}

/// A PB role that `/setup_pb_roles` names from a split reads back as that
/// split: `*{code}PB` gives the split of `code`.
pub proof fn lemma_pb_role_reads_back(sp: Split)
    ensures
        pb_role_split(ROLE_PREFIX@ + sp.code() + "PB"@) == Some(sp),
{
    reveal_strlit("*");
    reveal_strlit("PB");
    lemma_code_letters(sp);
    let code = sp.code();
    let pb = seq!['P', 'B'];
    let rest = code + pb;
    let name = ROLE_PREFIX@ + sp.code() + "PB"@;
    assert(name =~= seq!['*'] + rest);
    assert forall|i: int| 0 <= i < rest.len() implies rest[i] != '*' && rest[i] != ' ' by {
        if i < code.len() {
            assert(rest[i] == code[i]);
        }
    }
    assert(seq!['*'].is_prefix_of(name)) by {
        assert(name.subrange(0, 1) =~= seq!['*']);
    }
    assert(name.skip(1) =~= rest);
    lemma_without_lacking_pattern(rest, '*');
    lemma_without_char_lacking(rest, ' ');
    assert(role_core(name) == rest);
    assert(lacks(code, 'P')) by {
        reveal_strlit("NE");
        reveal_strlit("F");
        reveal_strlit("B");
        reveal_strlit("E");
        reveal_strlit("EE");
    }
    assert("PB"@ =~= pb);
    lemma_without_pattern_suffix(code, pb);
    lemma_code_round_trip(sp);
}

/// A role of the bot's own that reads as a timed role of `split`: named with
/// the role prefix and not another category's, with neither `PB` nor `+` in
/// its name (no PB role and no runner's ping).
pub open spec fn deletable_timed_role(n: Seq<char>, split: Split) -> bool {
    &&& ROLE_PREFIX@.is_prefix_of(n)
    &&& !ROLE_PREFIX_115@.is_prefix_of(n)
    &&& !ROLE_PREFIX_17@.is_prefix_of(n)
    &&& !ROLE_PREFIX_AA@.is_prefix_of(n)
    &&& !seq_contains(n, "PB"@)
    &&& !seq_contains(n, "+"@)
    &&& timed_role(n) matches Some(Ok((sp, _, _))) && sp == split
}

/// A PB role of the bot's own: named with the role prefix and not another
/// category's, with `PB` and without `+` in its name.
pub open spec fn deletable_pb_role(n: Seq<char>) -> bool {
    &&& ROLE_PREFIX@.is_prefix_of(n)
    &&& !ROLE_PREFIX_115@.is_prefix_of(n)
    &&& !ROLE_PREFIX_17@.is_prefix_of(n)
    &&& !ROLE_PREFIX_AA@.is_prefix_of(n)
    &&& seq_contains(n, "PB"@)
    &&& !seq_contains(n, "+"@)
}

/// `/remove_roles` deletes exactly the bot's own timed roles of the split:
/// every id it deletes is that of such a role (never a PB role or a
/// runner's ping), and every such role is deleted.
#[verifier::spinoff_prover]
pub proof fn lemma_removed_roles_are_the_splits_timed_roles(roles: Seq<(u64, Seq<char>)>, split: Split)
    ensures
        forall|k: int|
            0 <= k < split_roles_removed(roles, split).0.len() ==> exists|i: int|
                0 <= i < roles.len() && roles[i].0 == #[trigger] split_roles_removed(roles, split).0[k]
                    && deletable_timed_role(roles[i].1, split),
        forall|i: int|
            0 <= i < roles.len() && #[trigger] deletable_timed_role(roles[i].1, split) ==> split_roles_removed(
                roles,
                split,
            ).0.contains(roles[i].0),
    decreases roles.len(),
{
    if roles.len() == 0 {
        assert(split_roles_removed(roles, split).0 =~= Seq::<u64>::empty());
    } else {
        let prev = roles.drop_last();
        lemma_removed_roles_are_the_splits_timed_roles(prev, split);
        let (id, n) = roles.last();
        let last = roles.len() - 1;
        assert(roles[last] == roles.last());
        assert(deletable_timed_role(n, split) ==> split_roles_removed(roles, split).0 == split_roles_removed(
            prev,
            split,
        ).0.push(id));
        assert(!deletable_timed_role(n, split) ==> split_roles_removed(roles, split).0 == split_roles_removed(
            prev,
            split,
        ).0);
        assert forall|k: int| 0 <= k < split_roles_removed(roles, split).0.len() implies exists|i: int|
            0 <= i < roles.len() && roles[i].0 == #[trigger] split_roles_removed(roles, split).0[k]
                && deletable_timed_role(roles[i].1, split) by {
            if k < split_roles_removed(prev, split).0.len() {
                assert(split_roles_removed(roles, split).0[k] == split_roles_removed(prev, split).0[k]);
                let i = choose|i: int|
                    0 <= i < prev.len() && prev[i].0 == #[trigger] split_roles_removed(prev, split).0[k]
                        && deletable_timed_role(prev[i].1, split);
                assert(prev[i] == roles[i]);
            } else {
                assert(roles[last].0 == split_roles_removed(roles, split).0[k]);
            }
        }
        assert forall|i: int| 0 <= i < roles.len() && #[trigger] deletable_timed_role(roles[i].1, split) implies split_roles_removed(
            roles,
            split,
        ).0.contains(roles[i].0) by {
            if i < prev.len() {
                assert(prev[i] == roles[i]);
                assert(deletable_timed_role(prev[i].1, split));
                let j = choose|j: int|
                    0 <= j < split_roles_removed(prev, split).0.len() && split_roles_removed(prev, split).0[j]
                        == roles[i].0;
                assert(split_roles_removed(roles, split).0[j] == split_roles_removed(prev, split).0[j]);
            } else {
                let ids = split_roles_removed(roles, split).0;
                assert(ids[ids.len() - 1] == id);
            }
        }
    }
}

/// `/remove_pb_roles` deletes exactly the bot's own PB roles: every id it
/// deletes is that of such a role (never a timed role or a runner's ping),
/// and every such role is deleted.
#[verifier::spinoff_prover]
pub proof fn lemma_removed_pb_roles_are_pb_roles(roles: Seq<(u64, Seq<char>)>)
    ensures
        forall|k: int|
            0 <= k < pb_roles_removed(roles).len() ==> exists|i: int|
                0 <= i < roles.len() && roles[i].0 == #[trigger] pb_roles_removed(roles)[k] && deletable_pb_role(
                    roles[i].1,
                ),
        forall|i: int|
            0 <= i < roles.len() && #[trigger] deletable_pb_role(roles[i].1) ==> pb_roles_removed(roles).contains(
                roles[i].0,
            ),
    decreases roles.len(),
{
    if roles.len() == 0 {
        assert(pb_roles_removed(roles) =~= Seq::<u64>::empty());
    } else {
        let prev = roles.drop_last();
        lemma_removed_pb_roles_are_pb_roles(prev);
        let (id, n) = roles.last();
        let last = roles.len() - 1;
        assert(roles[last] == roles.last());
        assert(deletable_pb_role(n) ==> pb_roles_removed(roles) == pb_roles_removed(prev).push(id));
        assert(!deletable_pb_role(n) ==> pb_roles_removed(roles) == pb_roles_removed(prev));
        assert forall|k: int| 0 <= k < pb_roles_removed(roles).len() implies exists|i: int|
            0 <= i < roles.len() && roles[i].0 == #[trigger] pb_roles_removed(roles)[k] && deletable_pb_role(
                roles[i].1,
            ) by {
            if k < pb_roles_removed(prev).len() {
                assert(pb_roles_removed(roles)[k] == pb_roles_removed(prev)[k]);
                let i = choose|i: int|
                    0 <= i < prev.len() && prev[i].0 == #[trigger] pb_roles_removed(prev)[k] && deletable_pb_role(
                        prev[i].1,
                    );
                assert(prev[i] == roles[i]);
            } else {
                assert(roles[last].0 == pb_roles_removed(roles)[k]);
            }
        }
        assert forall|i: int| 0 <= i < roles.len() && #[trigger] deletable_pb_role(roles[i].1) implies pb_roles_removed(
            roles,
        ).contains(roles[i].0) by {
            if i < prev.len() {
                assert(prev[i] == roles[i]);
                assert(deletable_pb_role(prev[i].1));
                let j = choose|j: int| 0 <= j < pb_roles_removed(prev).len() && pb_roles_removed(prev)[j] == roles[i].0;
                assert(pb_roles_removed(roles)[j] == pb_roles_removed(prev)[j]);
            } else {
                let ids = pb_roles_removed(roles);
                assert(ids[ids.len() - 1] == id);
            }
        }
    }
}

} // verus!
