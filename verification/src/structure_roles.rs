//! Pace-roles of the structures category: reading their names, and the
//! role-selection menus that offer them.

use vstd::prelude::*;
use vstd::string::*;

use crate::config::config::{role_info_views, RoleInfo};
use crate::config::parsers::{read_role_fields, role_core, role_fields, try_read_role_fields};
use crate::controller::RoleData;
use crate::dispatcher::utils::minutes_seconds_millis;
use crate::guild_types::Split;
use crate::sort::{key_before, stable_order, stable_sort_by_key};
use crate::text::{
    chars_of, contains, decimal, decimal2, int_error_message, int_error_text, parse_uint, parse_uint_chars,
    push_all, push_decimal, push_decimal2, push_str, remove_char, remove_pattern, seq_contains, starts_with,
    string_of, without_pattern,
};

verus! {

/// What reading a timed role name of this category gives: split, minutes
/// and seconds (written in tens), or the error; `None` where reading it
/// panics (a split code that is no split, or tens of seconds above 25).
pub open spec fn structure_timed_role(name: Seq<char>) -> Option<Result<(Split, u8, u8), Seq<char>>> {
    match role_fields(name, false) {
        None => None,
        Some(Err(e)) => Some(Err(e)),
        Some(Ok((code, m, s, _))) => match Split::from_code(code) {
            None => None,
            Some(sp) => Some(Ok((sp, m, s))),
        },
    }
}

/// The split that a PB role's name names.
pub open spec fn structure_pb_split(name: Seq<char>) -> Option<Split> {
    Split::from_code(without_pattern(role_core(name), "PB"@))
}

/// Reads the split, minutes and seconds of a timed role name such as
/// `*FS2:3`.
pub fn extract_structure_split(role_name: &str) -> (r: Result<(Split, u8, u8), String>)
    requires
        structure_timed_role(role_name@) is Some,
    ensures
        match r {
            Ok(v) => structure_timed_role(role_name@) == Some(Ok::<(Split, u8, u8), Seq<char>>(v)),
            Err(e) => structure_timed_role(role_name@) == Some(Err::<(Split, u8, u8), Seq<char>>(e@)),
        },
{
    match read_role_fields(role_name, false) {
        Err(e) => Err(e),
        Ok((code, minutes, seconds, _)) => {
            let split = Split::from_str(code.as_str()).unwrap();
            Ok((split, minutes, seconds))
        },
    }
}

/// Reads the split of a PB role name such as `*FSPB`.
pub fn extract_structure_pb_split(role_name: &str) -> (r: Option<Split>)
    ensures
        r == structure_pb_split(role_name@),
{
    let name = chars_of(role_name);
    let prefix = chars_of(crate::cache::consts::ROLE_PREFIX);
    let a = remove_pattern(&name, &prefix);
    let b = remove_char(&a, ' ');
    let pb = chars_of("PB");
    let c = remove_pattern(&b, &pb);
    let code = string_of(&c);
    Split::from_str(code.as_str())
}

/// What reading a pace-role gives: a PB role has its split and no time, any
/// other role the split and time of its name; or the error.
pub open spec fn structure_role_data(name: Seq<char>) -> Option<Result<(Split, u8, u8), Seq<char>>> {
    if seq_contains(name, "PB"@) {
        match structure_pb_split(name) {
            Some(sp) => Some(Ok((sp, 0u8, 0u8))),
            None => Some(Err("Unable to extract split from pb role name: "@ + name + "."@)),
        }
    } else {
        match structure_timed_role(name) {
            None => None,
            Some(Ok(v)) => Some(Ok(v)),
            Some(Err(e)) => Some(Err("Unable to extract split from role name: "@ + name + " due to: "@ + e)),
        }
    }
}

impl RoleData {
    /// Reads a guild role as a pace-role of this category.
    pub fn new(role_id: u64, role_name: String) -> (r: Result<RoleData, String>)
        requires
            structure_role_data(role_name@) is Some,
        ensures
            match r {
                Ok(d) => structure_role_data(role_name@) == Some(
                    Ok::<(Split, u8, u8), Seq<char>>((d.split, d.minutes, d.seconds)),
                ) && d.role_id == role_id && d.role_name@ == role_name@ && d.runner@ == Seq::<char>::empty(),
                Err(e) => structure_role_data(role_name@) == Some(Err::<(Split, u8, u8), Seq<char>>(e@)),
            },
    {
        let name = chars_of(role_name.as_str());
        let pb = chars_of("PB");
        if contains(&name, &pb) {
            match extract_structure_pb_split(role_name.as_str()) {
                Some(split) => Ok(RoleData { split, minutes: 0, seconds: 0, runner: String::new(), role_id, role_name }),
                None => {
                    let mut m: Vec<char> = Vec::new();
                    push_str(&mut m, "Unable to extract split from pb role name: ");
                    push_str(&mut m, role_name.as_str());
                    push_str(&mut m, ".");
                    Err(string_of(&m))
                },
            }
        } else {
            match extract_structure_split(role_name.as_str()) {
                Ok((split, minutes, seconds)) => Ok(
                    RoleData { split, minutes, seconds, runner: String::new(), role_id, role_name },
                ),
                Err(e) => {
                    let mut m: Vec<char> = Vec::new();
                    push_str(&mut m, "Unable to extract split from role name: ");
                    push_str(&mut m, role_name.as_str());
                    push_str(&mut m, " due to: ");
                    push_str(&mut m, e.as_str());
                    Err(string_of(&m))
                },
            }
        }
    }
}

/// A role the role-selection message of this category offers: its name
/// starts with `*`.
pub open spec fn offered(n: Seq<char>) -> bool {
    "*"@.is_prefix_of(n)
}

/// Every offered role that is no PB role can be read, so that the roles can
/// be ordered by time.
pub open spec fn offered_roles_readable(roles: Seq<(u64, Seq<char>)>) -> bool {
    forall|i: int|
        0 <= i < roles.len() && offered(#[trigger] roles[i].1) && !seq_contains(roles[i].1, "PB"@) ==> (
        structure_timed_role(roles[i].1) matches Some(Ok(_)))
}

/// The order of an offered role: PB roles first, then by time.
pub open spec fn offer_key(n: Seq<char>) -> u64 {
    if seq_contains(n, "PB"@) {
        0
    } else {
        match structure_timed_role(n) {
            Some(Ok((_, m, s))) => minutes_seconds_millis(m as nat, s as nat) as u64,
            _ => 0,
        }
    }
}

/// The offered roles of `roles`: their indexes, in order.
pub open spec fn offered_indexes(roles: Seq<(u64, Seq<char>)>) -> Seq<int>
    decreases roles.len(),
{
    if roles.len() == 0 {
        Seq::empty()
    } else if offered(roles.last().1) {
        offered_indexes(roles.drop_last()).push(roles.len() - 1)
    } else {
        offered_indexes(roles.drop_last())
    }
}

/// The roles that the role-selection message offers, in the order of its
/// menus: the indexes of `roles` that are offered, sorted stably by their
/// order key.
pub open spec fn offer_order(roles: Seq<(u64, Seq<char>)>, order: Seq<int>) -> bool {
    let idx = offered_indexes(roles);
    let keys = idx.map_values(|i: int| offer_key(roles[i].1));
    exists|perm: Seq<int>|
        #[trigger] stable_order(keys, perm) && order == perm.map_values(|k: int| idx[k])
}

proof fn lemma_offered_indexes(roles: Seq<(u64, Seq<char>)>)
    ensures
        forall|k: int| 0 <= k < offered_indexes(roles).len() ==> 0 <= #[trigger] offered_indexes(roles)[k] < roles.len()
            && offered(roles[offered_indexes(roles)[k]].1),
    decreases roles.len(),
{
    if roles.len() > 0 {
        lemma_offered_indexes(roles.drop_last());
        let prev = offered_indexes(roles.drop_last());
        assert forall|k: int| 0 <= k < prev.len() implies roles[prev[k]] == roles.drop_last()[prev[k]] by {}
    }
}

/// The roles that the role-selection message offers, as indexes of `roles`
/// in menu order: roles named with `*`, PB roles first, then by time.
pub fn structure_offer_order(roles: &Vec<RoleInfo>) -> (order: Vec<usize>)
    requires
        offered_roles_readable(role_info_views(roles@)),
    ensures
        offer_order(role_info_views(roles@), order@.map_values(|i: usize| i as int)),
{
    let ghost rv = role_info_views(roles@);
    let star = chars_of("*");
    let pb = chars_of("PB");
    let mut idx: Vec<usize> = Vec::new();
    let mut keys: Vec<u64> = Vec::new();
    assert(rv.take(0) =~= Seq::<(u64, Seq<char>)>::empty());
    for i in 0..roles.len()
        invariant
            rv == role_info_views(roles@),
            star@ == "*"@,
            pb@ == "PB"@,
            offered_roles_readable(rv),
            idx@.map_values(|j: usize| j as int) == offered_indexes(rv.take(i as int)),
            keys@.len() == idx@.len(),
            forall|k: int| 0 <= k < idx@.len() ==> #[trigger] keys@[k] == offer_key(rv[idx@[k] as int].1),
            forall|k: int| 0 <= k < idx@.len() ==> #[trigger] idx@[k] < i,
    {
        let name = chars_of(roles[i].name.as_str());
        let ghost old_idx = idx@;
        proof {
            let t = rv.take(i + 1);
            assert(t.drop_last() =~= rv.take(i as int));
            assert(t.last() == rv[i as int]);
            assert(rv[i as int] == (roles@[i as int].id, roles@[i as int].name@));
        }
        if starts_with(&name, &star) {
            let key: u64 = if contains(&name, &pb) {
                0
            } else {
                assert(offered(rv[i as int].1) && !seq_contains(rv[i as int].1, "PB"@));
                match extract_structure_split(roles[i].name.as_str()) {
                    Ok((_, m, s)) => (m as u64) * 60000 + (s as u64) * 1000,
                    Err(_) => 0,
                }
            };
            idx.push(i);
            keys.push(key);
            assert(idx@.map_values(|j: usize| j as int) =~= old_idx.map_values(|j: usize| j as int).push(i as int));
        } else {
            assert(idx@ == old_idx);
        }
    }
    assert(rv.take(roles.len() as int) =~= rv);
    let perm = stable_sort_by_key(&keys);
    let mut order: Vec<usize> = Vec::new();
    let ghost p = perm@.map_values(|k: usize| k as int);
    let ghost iv = idx@.map_values(|j: usize| j as int);
    for k in 0..perm.len()
        invariant
            p == perm@.map_values(|k: usize| k as int),
            iv == idx@.map_values(|j: usize| j as int),
            stable_order(keys@, p),
            perm.len() == idx.len(),
            keys@.len() == idx@.len(),
            order@.map_values(|i: usize| i as int) == p.take(k as int).map_values(|q: int| iv[q]),
    {
        let q = perm[k];
        assert(p[k as int] == q as int);
        assert(0 <= p[k as int] < keys@.len());
        let ghost before = order@;
        order.push(idx[q]);
        assert(iv[q as int] == idx@[q as int] as int);
        assert(order@.map_values(|i: usize| i as int) =~= before.map_values(|i: usize| i as int).push(iv[q as int]));
        assert(p.take(k + 1) =~= p.take(k as int).push(q as int));
        assert(order@.map_values(|i: usize| i as int) =~= p.take(k + 1).map_values(|q: int| iv[q]));
    }
    proof {
        assert(p.take(perm.len() as int) =~= p);
        let kk = iv.map_values(|i: int| offer_key(rv[i].1));
        assert(keys@ =~= kk);
        assert(stable_order(kk, p));
    }
    order
}

/// The label of a PB role in a menu.
pub open spec fn pb_label(alt: Seq<char>) -> Seq<char> {
    "PB Pace "@ + alt
}

/// The label of a timed role in a menu: `Sub {m}:{ss} {alt}`.
pub open spec fn sub_label(m: u8, s: u8, alt: Seq<char>) -> Seq<char> {
    "Sub "@ + decimal(m as nat) + ":"@ + decimal2(s as nat) + " "@ + alt
}

/// One choice of a role-selection menu: its label and the role's id.
pub struct SelectOption {
    pub label: String,
    pub role_id: u64,
}

pub open spec fn option_views(v: Seq<SelectOption>) -> Seq<(Seq<char>, u64)> {
    v.map_values(|o: SelectOption| (o.label@, o.role_id))
}

/// The choices of the menu for `target`, from the roles at `order` in this
/// order; or the error of a PB role whose split cannot be read.
pub open spec fn structure_menu(roles: Seq<(u64, Seq<char>)>, order: Seq<int>, target: Split) -> Result<
    Seq<(Seq<char>, u64)>,
    Seq<char>,
>
    decreases order.len(),
{
    if order.len() == 0 {
        Ok(Seq::empty())
    } else {
        match structure_menu(roles, order.drop_last(), target) {
            Err(e) => Err(e),
            Ok(opts) => {
                let (id, n) = roles[order.last()];
                if seq_contains(n, "PB"@) {
                    match structure_pb_split(n) {
                        None => Err("failed to extract split from pb role name: "@ + n),
                        Some(sp) => if sp == target {
                            Ok(opts.push((pb_label(target.alt_description()), id)))
                        } else {
                            Ok(opts)
                        },
                    }
                } else {
                    match structure_timed_role(n) {
                        Some(Ok((sp, m, s))) => if sp == target {
                            Ok(opts.push((sub_label(m, s, target.alt_description()), id)))
                        } else {
                            Ok(opts)
                        },
                        Some(Err(e)) => Err(e),
                        None => Err(Seq::empty()),
                    }
                }
            },
        }
    }
}

pub fn label_of(pb: bool, m: u8, s: u8, alt: &str) -> (r: String)
    ensures
        r@ == if pb {
            pb_label(alt@)
        } else {
            sub_label(m, s, alt@)
        },
{
    let mut out: Vec<char> = Vec::new();
    if pb {
        push_str(&mut out, "PB Pace ");
        push_str(&mut out, alt);
    } else {
        push_str(&mut out, "Sub ");
        push_decimal(&mut out, m as u64);
        push_str(&mut out, ":");
        push_decimal2(&mut out, s as u64);
        push_str(&mut out, " ");
        push_str(&mut out, alt);
    }
    let ghost want = if pb { pb_label(alt@) } else { sub_label(m, s, alt@) };
    assert(out@ =~= want);
    string_of(&out)
}

/// The choices of the menu for `target`, from the roles at `order`.
pub fn structure_select_options(roles: &Vec<RoleInfo>, order: &Vec<usize>, target: Split) -> (r: Result<
    Vec<SelectOption>,
    String,
>)
    requires
        forall|k: int| 0 <= k < order.len() ==> #[trigger] order@[k] < roles.len(),
        forall|k: int|
            0 <= k < order.len() && !seq_contains(roles@[#[trigger] order@[k] as int].name@, "PB"@) ==> (
            structure_timed_role(roles@[order@[k] as int].name@) is Some),
    ensures
        ({
            let menu = structure_menu(role_info_views(roles@), order@.map_values(|i: usize| i as int), target);
            match r {
                Ok(v) => menu == Ok::<Seq<(Seq<char>, u64)>, Seq<char>>(option_views(v@)),
                Err(e) => menu == Err::<Seq<(Seq<char>, u64)>, Seq<char>>(e@),
            }
        }),
{
    let ghost rv = role_info_views(roles@);
    let ghost o = order@.map_values(|i: usize| i as int);
    let alt = target.alt_desc();
    let pb = chars_of("PB");
    let mut out: Vec<SelectOption> = Vec::new();
    assert(o.take(0) =~= Seq::<int>::empty());
    assert(option_views(out@) =~= Seq::<(Seq<char>, u64)>::empty());
    for k in 0..order.len()
        invariant
            rv == role_info_views(roles@),
            o == order@.map_values(|i: usize| i as int),
            pb@ == "PB"@,
            alt@ == target.alt_description(),
            forall|j: int| 0 <= j < order.len() ==> #[trigger] order@[j] < roles.len(),
            forall|j: int|
                0 <= j < order.len() && !seq_contains(roles@[#[trigger] order@[j] as int].name@, "PB"@) ==> (
                structure_timed_role(roles@[order@[j] as int].name@) is Some),
            structure_menu(rv, o.take(k as int), target) == Ok::<Seq<(Seq<char>, u64)>, Seq<char>>(option_views(out@)),
    {
        let i = order[k];
        let ghost before = out@;
        proof {
            let t = o.take(k + 1);
            assert(t.drop_last() =~= o.take(k as int));
            assert(t.last() == i as int);
            assert(rv[i as int] == (roles@[i as int].id, roles@[i as int].name@));
        }
        let name = chars_of(roles[i].name.as_str());
        if contains(&name, &pb) {
            match extract_structure_pb_split(roles[i].name.as_str()) {
                None => {
                    let mut m: Vec<char> = Vec::new();
                    push_str(&mut m, "failed to extract split from pb role name: ");
                    push_str(&mut m, roles[i].name.as_str());
                    proof {
                        lemma_menu_error_sticks(rv, o, target, k + 1);
                    }
                    return Err(string_of(&m));
                },
                Some(sp) => {
                    if sp == target {
                        let label = label_of(true, 0, 0, alt.as_str());
                        out.push(SelectOption { label, role_id: roles[i].id });
                        assert(option_views(out@) =~= option_views(before).push((pb_label(alt@), roles@[i as int].id)));
                    }
                },
            }
        } else {
            match extract_structure_split(roles[i].name.as_str()) {
                Err(e) => {
                    proof {
                        lemma_menu_error_sticks(rv, o, target, k + 1);
                    }
                    return Err(e);
                },
                Ok((sp, m, s)) => {
                    if sp == target {
                        let label = label_of(false, m, s, alt.as_str());
                        out.push(SelectOption { label, role_id: roles[i].id });
                        assert(option_views(out@) =~= option_views(before).push((sub_label(m, s, alt@), roles@[i as int].id)));
                    }
                },
            }
        }
    }
    assert(o.take(order.len() as int) =~= o);
    Ok(out)
}

proof fn lemma_menu_error_sticks(roles: Seq<(u64, Seq<char>)>, order: Seq<int>, target: Split, k: int)
    requires
        0 <= k <= order.len(),
        structure_menu(roles, order.take(k), target) is Err,
    ensures
        structure_menu(roles, order, target) == structure_menu(roles, order.take(k), target),
    decreases order.len() - k,
{
    if k < order.len() {
        assert(order.take(k + 1).drop_last() =~= order.take(k));
        lemma_menu_error_sticks(roles, order, target, k + 1);
    } else {
        assert(order.take(k) =~= order);
    }
}

/// What reading a timed role name of this category ends in: 0 where it
/// panics, 1 with an error, 2 with a role.
fn structure_timed_outcome(name: &str) -> (r: u8)
    ensures
        (r == 0) == (structure_timed_role(name@) is None),
        (r == 1) == (structure_timed_role(name@) matches Some(Err(_))),
        (r == 2) == (structure_timed_role(name@) matches Some(Ok(_))),
{
    match try_read_role_fields(name, false) {
        None => 0,
        Some(Err(_)) => 1,
        Some(Ok((code, _, _, _))) => if Split::from_str(code.as_str()).is_some() {
            2
        } else {
            0
        },
    }
}

/// Whether a guild role can be read as a pace-role of this category without
/// a panic.
pub fn structure_role_readable(name: &str) -> (r: bool)
    ensures
        r == (structure_role_data(name@) is Some),
{
    let n = chars_of(name);
    let pb = chars_of("PB");
    contains(&n, &pb) || structure_timed_outcome(name) != 0
}

/// Whether the roles can be ordered for the role-selection message: every
/// role named with `*` that is no PB role reads as a timed role.
pub fn structure_selection_readable(roles: &Vec<RoleInfo>) -> (r: bool)
    ensures
        r == offered_roles_readable(role_info_views(roles@)),
{
    let ghost rv = role_info_views(roles@);
    let star = chars_of("*");
    let pb = chars_of("PB");
    for i in 0..roles.len()
        invariant
            rv == role_info_views(roles@),
            star@ == "*"@,
            pb@ == "PB"@,
            forall|j: int|
                0 <= j < i && offered(#[trigger] rv[j].1) && !seq_contains(rv[j].1, "PB"@) ==> (
                structure_timed_role(rv[j].1) matches Some(Ok(_))),
    {
        assert(rv[i as int] == (roles@[i as int].id, roles@[i as int].name@));
        let name = chars_of(roles[i].name.as_str());
        if starts_with(&name, &star) && !contains(&name, &pb) {
            if structure_timed_outcome(roles[i].name.as_str()) != 2 {
                assert(offered(rv[i as int].1) && !seq_contains(rv[i as int].1, "PB"@));
                return false;
            }
        }
    }
    true
}

/// Whether the role-selection message offers the first-structure menu: some
/// role named with `*` is a first-structure role (PB or timed).
pub open spec fn bastion_picker(roles: Seq<(u64, Seq<char>)>) -> bool {
    exists|i: int|
        0 <= i < roles.len() && offered(#[trigger] roles[i].1) && if seq_contains(roles[i].1, "PB"@) {
            structure_pb_split(roles[i].1) == Some(Split::FirstStructure)
        } else {
            structure_timed_role(roles[i].1) matches Some(Ok((sp, _, _))) && sp == Split::FirstStructure
        }
}

/// Whether the role-selection message offers the first-structure menu.
pub fn send_bastion_picker(roles: &Vec<RoleInfo>) -> (r: bool)
    requires
        offered_roles_readable(role_info_views(roles@)),
    ensures
        r == bastion_picker(role_info_views(roles@)),
{
    let ghost rv = role_info_views(roles@);
    let star = chars_of("*");
    let pb = chars_of("PB");
    for i in 0..roles.len()
        invariant
            rv == role_info_views(roles@),
            star@ == "*"@,
            pb@ == "PB"@,
            offered_roles_readable(rv),
            forall|j: int| 0 <= j < i ==> !(offered(#[trigger] rv[j].1) && if seq_contains(rv[j].1, "PB"@) {
                structure_pb_split(rv[j].1) == Some(Split::FirstStructure)
            } else {
                structure_timed_role(rv[j].1) matches Some(Ok((sp, _, _))) && sp == Split::FirstStructure
            }),
    {
        assert(rv[i as int] == (roles@[i as int].id, roles@[i as int].name@));
        let name = chars_of(roles[i].name.as_str());
        if starts_with(&name, &star) {
            let hit = if contains(&name, &pb) {
                match extract_structure_pb_split(roles[i].name.as_str()) {
                    Some(sp) => sp == Split::FirstStructure,
                    None => false,
                }
            } else {
                assert(offered(rv[i as int].1) && !seq_contains(rv[i as int].1, "PB"@));
                match extract_structure_split(roles[i].name.as_str()) {
                    Ok((sp, _, _)) => sp == Split::FirstStructure,
                    Err(_) => false,
                }
            };
            if hit {
                return true;
            }
        }
    }
    false
}

/// The whole time of a role read as a timed role, in seconds: its minutes
/// and its seconds.
pub open spec fn listed_structure_time(r: Option<Result<(Split, u8, u8), Seq<char>>>) -> Option<nat> {
    match r {
        Some(Ok((_, m, s))) => Some(m as nat * 60 + s as nat),
        _ => None,
    }
}

/// The role-selection message lists the offered timed roles by their whole
/// time, minutes then seconds: of two timed roles, the one listed first has
/// no later time; and a timed role is listed before a PB role only when its
/// time is zero. Both listed roles are offered roles of `roles`.
pub proof fn lemma_offered_structure_roles_by_time(roles: Seq<(u64, Seq<char>)>, order: Seq<int>, a: int, b: int)
    requires
        offer_order(roles, order),
        0 <= a < b < order.len(),
    ensures
        0 <= order[a] < roles.len() && 0 <= order[b] < roles.len(),
        offered(roles[order[a]].1) && offered(roles[order[b]].1),
        ({
            let na = roles[order[a]].1;
            let nb = roles[order[b]].1;
            &&& (listed_structure_time(structure_timed_role(na)) is Some && listed_structure_time(structure_timed_role(nb)) is Some && !seq_contains(na, "PB"@) && !seq_contains(
                nb,
                "PB"@,
            ) ==> listed_structure_time(structure_timed_role(na))->0 <= listed_structure_time(structure_timed_role(nb))->0)
            &&& (listed_structure_time(structure_timed_role(na)) is Some && !seq_contains(na, "PB"@) && seq_contains(nb, "PB"@) ==> listed_structure_time(structure_timed_role(na))->0 == 0)
        }),
{
    let idx = offered_indexes(roles);
    let keys = idx.map_values(|i: int| offer_key(roles[i].1));
    let perm = choose|perm: Seq<int>| #[trigger] stable_order(keys, perm) && order == perm.map_values(|k: int| idx[k]);
    lemma_offered_indexes(roles);
    let pa = perm[a];
    let pb = perm[b];
    assert(0 <= pa < keys.len() && 0 <= pb < keys.len());
    assert(key_before(keys, perm[a], perm[b]));
    assert(order[a] == idx[pa] && order[b] == idx[pb]);
    assert(keys[pa] == offer_key(roles[idx[pa]].1));
    assert(keys[pb] == offer_key(roles[idx[pb]].1));
    assert(offer_key(roles[order[a]].1) <= offer_key(roles[order[b]].1));
}

} // verus!
