//! The role-selection message: the pace-roles it offers, in which order,
//! and the choices of its menus.

use vstd::prelude::*;
use vstd::string::*;

use crate::cache::consts::{ROLE_PREFIX, ROLE_PREFIX_115, ROLE_PREFIX_17};
use crate::cache::guild_cache_entry::Split;
use crate::config::config::{is_pace_role_name, role_info_views, RoleInfo};
use crate::config::parsers::{
    extract_split_from_pb_role_name, extract_split_from_role_name, pb_role_split, read_role, role_fields, timed_role,
    try_read_role_fields,
};
use crate::dispatcher::utils::hours_minutes_millis;
use crate::sort::{key_before, stable_order, stable_sort_by_key};
use crate::structure_roles::{label_of, option_views, pb_label, sub_label, SelectOption};
use crate::text::{chars_of, contains, push_str, seq_contains, starts_with, string_of};

verus! {

/// A role the role-selection message offers: a pace-role of this
/// category.
pub open spec fn offered(n: Seq<char>) -> bool {
    is_pace_role_name(n)
}

/// Every offered role that is no PB role can be read, so that the roles can
/// be ordered by time.
pub open spec fn offered_roles_readable(roles: Seq<(u64, Seq<char>)>) -> bool {
    forall|i: int|
        0 <= i < roles.len() && offered(#[trigger] roles[i].1) && !seq_contains(roles[i].1, "PB"@) ==> (
        timed_role(roles[i].1) matches Some(Ok(_)))
}

/// The order of an offered role: PB roles first, then by time.
pub open spec fn offer_key(n: Seq<char>) -> u64 {
    if seq_contains(n, "PB"@) {
        0
    } else {
        match timed_role(n) {
            Some(Ok((_, m, s))) => hours_minutes_millis(m as nat, s as nat) as u64,
            _ => 0,
        }
    }
}

/// The offered roles of `roles`: their indexes, in order.
pub open spec fn offered_indexes(roles: Seq<(u64, Seq<char>)>) -> Seq<int>
    decreases roles.len(),
{
    if roles.len() == 0 {
        Seq::empty()
    } else if offered(roles.last().1) {
        offered_indexes(roles.drop_last()).push(roles.len() - 1)
    } else {
        offered_indexes(roles.drop_last())
    }
}

/// The roles that the role-selection message offers, in the order of its
/// menus: the indexes of `roles` that are offered, sorted stably by their
/// order key.
pub open spec fn offer_order(roles: Seq<(u64, Seq<char>)>, order: Seq<int>) -> bool {
    let idx = offered_indexes(roles);
    let keys = idx.map_values(|i: int| offer_key(roles[i].1));
    exists|perm: Seq<int>|
        #[trigger] stable_order(keys, perm) && order == perm.map_values(|k: int| idx[k])
}

proof fn lemma_pace_offered_indexes(roles: Seq<(u64, Seq<char>)>)
    ensures
        forall|k: int| 0 <= k < offered_indexes(roles).len() ==> 0 <= #[trigger] offered_indexes(roles)[k] < roles.len()
            && offered(roles[offered_indexes(roles)[k]].1),
    decreases roles.len(),
{
    if roles.len() > 0 {
        lemma_pace_offered_indexes(roles.drop_last());
        let prev = offered_indexes(roles.drop_last());
        assert forall|k: int| 0 <= k < prev.len() implies roles[prev[k]] == roles.drop_last()[prev[k]] by {}
    }
}

/// The roles that the role-selection message offers, as indexes of `roles`
/// in menu order: the pace-roles, PB roles first, then by time.
pub fn pace_offer_order(roles: &Vec<RoleInfo>) -> (order: Vec<usize>)
    requires
        offered_roles_readable(role_info_views(roles@)),
    ensures
        offer_order(role_info_views(roles@), order@.map_values(|i: usize| i as int)),
{
    let ghost rv = role_info_views(roles@);
    let star = chars_of(ROLE_PREFIX);
    let p115 = chars_of(ROLE_PREFIX_115);
    let p17 = chars_of(ROLE_PREFIX_17);
    let pb = chars_of("PB");
    let mut idx: Vec<usize> = Vec::new();
    let mut keys: Vec<u64> = Vec::new();
    assert(rv.take(0) =~= Seq::<(u64, Seq<char>)>::empty());
    for i in 0..roles.len()
        invariant
            rv == role_info_views(roles@),
            star@ == ROLE_PREFIX@,
            p115@ == ROLE_PREFIX_115@,
            p17@ == ROLE_PREFIX_17@,
            pb@ == "PB"@,
            offered_roles_readable(rv),
            idx@.map_values(|j: usize| j as int) == offered_indexes(rv.take(i as int)),
            keys@.len() == idx@.len(),
            forall|k: int| 0 <= k < idx@.len() ==> #[trigger] keys@[k] == offer_key(rv[idx@[k] as int].1),
            forall|k: int| 0 <= k < idx@.len() ==> #[trigger] idx@[k] < i,
    {
        let name = chars_of(roles[i].name.as_str());
        let ghost old_idx = idx@;
        proof {
            let t = rv.take(i + 1);
            assert(t.drop_last() =~= rv.take(i as int));
            assert(t.last() == rv[i as int]);
            assert(rv[i as int] == (roles@[i as int].id, roles@[i as int].name@));
        }
        if starts_with(&name, &star) && !starts_with(&name, &p115) && !starts_with(&name, &p17) {
            let key: u64 = if contains(&name, &pb) {
                0
            } else {
                assert(offered(rv[i as int].1) && !seq_contains(rv[i as int].1, "PB"@));
                match extract_split_from_role_name(roles[i].name.as_str()) {
                    Ok((_, m, s)) => (m as u64) * 3600000 + (s as u64) * 60000,
                    Err(_) => 0,
                }
            };
            idx.push(i);
            keys.push(key);
            assert(idx@.map_values(|j: usize| j as int) =~= old_idx.map_values(|j: usize| j as int).push(i as int));
        } else {
            assert(idx@ == old_idx);
        }
    }
    assert(rv.take(roles.len() as int) =~= rv);
    let perm = stable_sort_by_key(&keys);
    let mut order: Vec<usize> = Vec::new();
    let ghost p = perm@.map_values(|k: usize| k as int);
    let ghost iv = idx@.map_values(|j: usize| j as int);
    for k in 0..perm.len()
        invariant
            p == perm@.map_values(|k: usize| k as int),
            iv == idx@.map_values(|j: usize| j as int),
            stable_order(keys@, p),
            perm.len() == idx.len(),
            keys@.len() == idx@.len(),
            order@.map_values(|i: usize| i as int) == p.take(k as int).map_values(|q: int| iv[q]),
    {
        let q = perm[k];
        assert(p[k as int] == q as int);
        assert(0 <= p[k as int] < keys@.len());
        let ghost before = order@;
        order.push(idx[q]);
        assert(iv[q as int] == idx@[q as int] as int);
        assert(order@.map_values(|i: usize| i as int) =~= before.map_values(|i: usize| i as int).push(iv[q as int]));
        assert(p.take(k + 1) =~= p.take(k as int).push(q as int));
        assert(order@.map_values(|i: usize| i as int) =~= p.take(k + 1).map_values(|q: int| iv[q]));
    }
    proof {
        assert(p.take(perm.len() as int) =~= p);
        let kk = iv.map_values(|i: int| offer_key(rv[i].1));
        assert(keys@ =~= kk);
        assert(stable_order(kk, p));
    }
    order
}

/// The choices of the menu for `target`, from the roles at `order` in this
/// order; or the error of a PB role whose split cannot be read.
pub open spec fn pace_menu(roles: Seq<(u64, Seq<char>)>, order: Seq<int>, target: Split, alt: Seq<char>) -> Result<
    Seq<(Seq<char>, u64)>,
    Seq<char>,
>
    decreases order.len(),
{
    if order.len() == 0 {
        Ok(Seq::empty())
    } else {
        match pace_menu(roles, order.drop_last(), target, alt) {
            Err(e) => Err(e),
            Ok(opts) => {
                let (id, n) = roles[order.last()];
                if seq_contains(n, "PB"@) {
                    match pb_role_split(n) {
                        None => Err("failed to extract split from pb role name: "@ + n),
                        Some(sp) => if sp == target {
                            Ok(opts.push((pb_label(alt), id)))
                        } else {
                            Ok(opts)
                        },
                    }
                } else {
                    match timed_role(n) {
                        Some(Ok((sp, m, s))) => if sp == target {
                            Ok(opts.push((sub_label(m, s, alt), id)))
                        } else {
                            Ok(opts)
                        },
                        Some(Err(e)) => Err(e),
                        None => Err(Seq::empty()),
                    }
                }
            },
        }
    }
}

/// The choices of the menu for `target`, from the roles at `order`.
pub fn pace_select_options(roles: &Vec<RoleInfo>, order: &Vec<usize>, target: Split, alt: &str) -> (r: Result<
    Vec<SelectOption>,
    String,
>)
    requires
        forall|k: int| 0 <= k < order.len() ==> #[trigger] order@[k] < roles.len(),
        forall|k: int|
            0 <= k < order.len() && !seq_contains(roles@[#[trigger] order@[k] as int].name@, "PB"@) ==> (
            timed_role(roles@[order@[k] as int].name@) is Some),
    ensures
        ({
            let menu = pace_menu(role_info_views(roles@), order@.map_values(|i: usize| i as int), target, alt@);
            match r {
                Ok(v) => menu == Ok::<Seq<(Seq<char>, u64)>, Seq<char>>(option_views(v@)),
                Err(e) => menu == Err::<Seq<(Seq<char>, u64)>, Seq<char>>(e@),
            }
        }),
{
    let ghost rv = role_info_views(roles@);
    let ghost o = order@.map_values(|i: usize| i as int);
    let pb = chars_of("PB");
    let mut out: Vec<SelectOption> = Vec::new();
    assert(o.take(0) =~= Seq::<int>::empty());
    assert(option_views(out@) =~= Seq::<(Seq<char>, u64)>::empty());
    for k in 0..order.len()
        invariant
            rv == role_info_views(roles@),
            o == order@.map_values(|i: usize| i as int),
            pb@ == "PB"@,
            forall|j: int| 0 <= j < order.len() ==> #[trigger] order@[j] < roles.len(),
            forall|j: int|
                0 <= j < order.len() && !seq_contains(roles@[#[trigger] order@[j] as int].name@, "PB"@) ==> (
                timed_role(roles@[order@[j] as int].name@) is Some),
            pace_menu(rv, o.take(k as int), target, alt@) == Ok::<Seq<(Seq<char>, u64)>, Seq<char>>(option_views(out@)),
    {
        let i = order[k];
        let ghost before = out@;
        proof {
            let t = o.take(k + 1);
            assert(t.drop_last() =~= o.take(k as int));
            assert(t.last() == i as int);
            assert(rv[i as int] == (roles@[i as int].id, roles@[i as int].name@));
        }
        let name = chars_of(roles[i].name.as_str());
        if contains(&name, &pb) {
            match extract_split_from_pb_role_name(roles[i].name.as_str()) {
                None => {
                    let mut m: Vec<char> = Vec::new();
                    push_str(&mut m, "failed to extract split from pb role name: ");
                    push_str(&mut m, roles[i].name.as_str());
                    proof {
                        lemma_pace_menu_error_sticks(rv, o, target, alt@, k + 1);
                    }
                    return Err(string_of(&m));
                },
                Some(sp) => {
                    if sp == target {
                        let label = label_of(true, 0, 0, alt);
                        out.push(SelectOption { label, role_id: roles[i].id });
                        assert(option_views(out@) =~= option_views(before).push((pb_label(alt@), roles@[i as int].id)));
                    }
                },
            }
        } else {
            match extract_split_from_role_name(roles[i].name.as_str()) {
                Err(e) => {
                    proof {
                        lemma_pace_menu_error_sticks(rv, o, target, alt@, k + 1);
                    }
                    return Err(e);
                },
                Ok((sp, m, s)) => {
                    if sp == target {
                        let label = label_of(false, m, s, alt);
                        out.push(SelectOption { label, role_id: roles[i].id });
                        assert(option_views(out@) =~= option_views(before).push((sub_label(m, s, alt@), roles@[i as int].id)));
                    }
                },
            }
        }
    }
    assert(o.take(order.len() as int) =~= o);
    Ok(out)
}

proof fn lemma_pace_menu_error_sticks(roles: Seq<(u64, Seq<char>)>, order: Seq<int>, target: Split, alt: Seq<char>, k: int)
    requires
        0 <= k <= order.len(),
        pace_menu(roles, order.take(k), target, alt) is Err,
    ensures
        pace_menu(roles, order, target, alt) == pace_menu(roles, order.take(k), target, alt),
    decreases order.len() - k,
{
    if k < order.len() {
        assert(order.take(k + 1).drop_last() =~= order.take(k));
        lemma_pace_menu_error_sticks(roles, order, target, alt, k + 1);
    } else {
        assert(order.take(k) =~= order);
    }
}

/// Whether the role name reads as a timed role without an error or a panic.
fn reads_as_timed_role(name: &str) -> (r: bool)
    ensures
        r == (timed_role(name@) matches Some(Ok(_))),
{
    match try_read_role_fields(name, false) {
        Some(Ok((code, _, _, _))) => Split::from_str(code.as_str()).is_some(),
        _ => false,
    }
}

/// Whether the roles can be ordered for the role-selection message: every
/// offered role that is no PB role reads as a timed role.
pub fn selection_readable(roles: &Vec<RoleInfo>) -> (r: bool)
    ensures
        r == offered_roles_readable(role_info_views(roles@)),
{
    let ghost rv = role_info_views(roles@);
    let star = chars_of(ROLE_PREFIX);
    let p115 = chars_of(ROLE_PREFIX_115);
    let p17 = chars_of(ROLE_PREFIX_17);
    let pb = chars_of("PB");
    for i in 0..roles.len()
        invariant
            rv == role_info_views(roles@),
            star@ == ROLE_PREFIX@,
            p115@ == ROLE_PREFIX_115@,
            p17@ == ROLE_PREFIX_17@,
            pb@ == "PB"@,
            forall|j: int|
                0 <= j < i && offered(#[trigger] rv[j].1) && !seq_contains(rv[j].1, "PB"@) ==> (timed_role(
                    rv[j].1,
                ) matches Some(Ok(_))),
    {
        assert(rv[i as int] == (roles@[i as int].id, roles@[i as int].name@));
        let name = chars_of(roles[i].name.as_str());
        if starts_with(&name, &star) && !starts_with(&name, &p115) && !starts_with(&name, &p17) && !contains(&name, &pb) {
            if !reads_as_timed_role(roles[i].name.as_str()) {
                assert(offered(rv[i as int].1) && !seq_contains(rv[i as int].1, "PB"@));
                return false;
            }
        }
    }
    true
}

/// The text of the role-selection message.
pub fn selection_message_text() -> (r: &'static str)
    ensures
        r@ == "Select roles based on the splits and paces you wish to follow."@,
{
    "Select roles based on the splits and paces you wish to follow."
}

/// The reply once the role-selection message is sent.
pub fn sent_message_reply() -> (r: String)
    ensures
        r@ == "Sent message!"@,
{
    String::from_str("Sent message!")
}

/// `/send_message_aa`: sends the role-selection message.
pub struct SendMessage;

impl SendMessage {
    pub fn name(&self) -> (r: &'static str)
        ensures
            r@ == "send_message_aa"@,
    {
        "send_message_aa"
    }

    pub fn description(&self) -> (r: &'static str)
        ensures
            r@ == "Send role message to the current channel."@,
    {
        "Send role message to the current channel."
    }
}

/// The whole time of a role read as a timed role, in seconds: its minutes
/// and its seconds.
pub open spec fn listed_time(r: Option<Result<(Split, u8, u8), Seq<char>>>) -> Option<nat> {
    match r {
        Some(Ok((_, m, s))) => Some(m as nat * 60 + s as nat),
        _ => None,
    }
}

/// The role-selection message lists the offered timed roles by their whole
/// time, minutes then seconds: of two timed roles, the one listed first has
/// no later time; and a timed role is listed before a PB role only when its
/// time is zero. Both listed roles are offered roles of `roles`.
pub proof fn lemma_offered_roles_by_time(roles: Seq<(u64, Seq<char>)>, order: Seq<int>, a: int, b: int)
    requires
        offer_order(roles, order),
        0 <= a < b < order.len(),
    ensures
        0 <= order[a] < roles.len() && 0 <= order[b] < roles.len(),
        offered(roles[order[a]].1) && offered(roles[order[b]].1),
        ({
            let na = roles[order[a]].1;
            let nb = roles[order[b]].1;
            &&& (listed_time(timed_role(na)) is Some && listed_time(timed_role(nb)) is Some && !seq_contains(na, "PB"@) && !seq_contains(
                nb,
                "PB"@,
            ) ==> listed_time(timed_role(na))->0 <= listed_time(timed_role(nb))->0)
            &&& (listed_time(timed_role(na)) is Some && !seq_contains(na, "PB"@) && seq_contains(nb, "PB"@) ==> listed_time(timed_role(na))->0 == 0)
        }),
{
    let idx = offered_indexes(roles);
    let keys = idx.map_values(|i: int| offer_key(roles[i].1));
    let perm = choose|perm: Seq<int>| #[trigger] stable_order(keys, perm) && order == perm.map_values(|k: int| idx[k]);
    lemma_pace_offered_indexes(roles);
    let pa = perm[a];
    let pb = perm[b];
    assert(0 <= pa < keys.len() && 0 <= pb < keys.len());
    assert(key_before(keys, perm[a], perm[b]));
    assert(order[a] == idx[pa] && order[b] == idx[pb]);
    assert(keys[pa] == offer_key(roles[idx[pa]].1));
    assert(keys[pb] == offer_key(roles[idx[pb]].1));
    assert(offer_key(roles[order[a]].1) <= offer_key(roles[order[b]].1));
}

} // verus!
