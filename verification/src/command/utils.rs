//! Helpers shared by the commands.

use vstd::prelude::*;

use crate::guild_types::PlayerSplitsData;
use crate::name_map::{entries_map, find_key, keys_distinct, lemma_find_key, lemma_find_key_at, NameMap};
use crate::text::{
    chars_le, chars_of, decimal, lemma_lex_le_total, lemma_lex_le_transitive, lex_le, lowercase,
    lowercase_chars, push_all, push_decimal, string_of, views,
};

verus! {

/// The configuration line of one runner: name, colon, the five thresholds
/// separated by `/`, and `/` and the finish threshold where it is set.
pub open spec fn splits_line(key: Seq<char>, p: PlayerSplitsData) -> Seq<char> {
    key + seq![':'] + decimal(p.first_structure as nat) + seq!['/'] + decimal(p.second_structure as nat)
        + seq!['/'] + decimal(p.blind as nat) + seq!['/'] + decimal(p.eye_spy as nat) + seq!['/']
        + decimal(p.end_enter as nat) + match p.finish {
        Some(f) => seq!['/'] + decimal(f as nat),
        None => Seq::<char>::empty(),
    }
}

/// The configuration text of runners in this order: each line after a
/// newline.
pub open spec fn config_text(entries: Seq<(Seq<char>, PlayerSplitsData)>) -> Seq<char>
    decreases entries.len(),
{
    if entries.len() == 0 {
        Seq::empty()
    } else {
        config_text(entries.drop_last()) + seq!['\n'] + splits_line(entries.last().0, entries.last().1)
    }
}

/// `order` lists each entry of `pairs` once, sorted by lower-case name.
pub open spec fn sorted_order<T>(pairs: Seq<(Seq<char>, T)>, order: Seq<int>) -> bool {
    &&& order.len() == pairs.len()
    &&& order.no_duplicates()
    &&& forall|a: int| 0 <= a < order.len() ==> 0 <= #[trigger] order[a] < pairs.len()
    &&& forall|j: int| 0 <= j < pairs.len() ==> order.contains(j)
    &&& forall|a: int, b: int|
        0 <= a < b < order.len() ==> lex_le(
            lowercase(#[trigger] pairs[order[a]].0),
            lowercase(#[trigger] pairs[order[b]].0),
        )
}

/// The entries of `pairs` in the order `order`.
pub open spec fn reorder<T>(pairs: Seq<(Seq<char>, T)>, order: Seq<int>) -> Seq<(Seq<char>, T)> {
    order.map_values(|i: int| pairs[i])
}

fn push_splits_line(out: &mut Vec<char>, key: &Vec<char>, p: PlayerSplitsData)
    ensures
        final(out)@ == old(out)@ + splits_line(key@, p),
{
    push_all(out, key);
    out.push(':');
    push_decimal(out, p.first_structure as u64);
    out.push('/');
    push_decimal(out, p.second_structure as u64);
    out.push('/');
    push_decimal(out, p.blind as u64);
    out.push('/');
    push_decimal(out, p.eye_spy as u64);
    out.push('/');
    push_decimal(out, p.end_enter as u64);
    match p.finish {
        Some(f) => {
            out.push('/');
            push_decimal(out, f as u64);
        },
        None => {},
    }
    assert(out@ =~= old(out)@ + splits_line(key@, p));
}

/// The indexes of the names sorted by their lower-case form, equal names in
/// their given order.
pub fn sort_by_lowercase<T: Copy>(players: &NameMap<T>) -> (order: Vec<usize>)
    ensures
        sorted_order(players.pairs(), order@.map_values(|i: usize| i as int)),
{
    let n = players.len();
    let mut lows: Vec<Vec<char>> = Vec::new();
    for i in 0..n
        invariant
            n == players.pairs().len(),
            lows.len() == i,
            forall|j: int| 0 <= j < i ==> (#[trigger] lows@[j])@ == lowercase(players.pairs()[j].0),
    {
        let name = chars_of(players.name_at(i).as_str());
        lows.push(lowercase_chars(&name));
    }
    let ghost pairs = players.pairs();
    let mut order: Vec<usize> = Vec::new();
    for i in 0..n
        invariant
            n == pairs.len(),
            pairs == players.pairs(),
            lows.len() == n,
            forall|j: int| 0 <= j < n ==> (#[trigger] lows@[j])@ == lowercase(pairs[j].0),
            order.len() == i,
            order@.no_duplicates(),
            forall|a: int| 0 <= a < order.len() ==> #[trigger] order@[a] < i,
            forall|j: usize| 0 <= j < i ==> #[trigger] order@.contains(j),
            forall|a: int, b: int|
                0 <= a < b < order.len() ==> lex_le(lows@[order@[a] as int]@, lows@[order@[b] as int]@),
    {
        let mut p: usize = 0;
        while p < order.len() && chars_le(&lows[order[p]], &lows[i])
            invariant
                p <= order.len(),
                order.len() == i,
                i < n,
                lows.len() == n,
                forall|a: int| 0 <= a < order.len() ==> #[trigger] order@[a] < i,
                forall|a: int| 0 <= a < p ==> lex_le(lows@[order@[a] as int]@, lows@[i as int]@),
            decreases order.len() - p,
        {
            p = p + 1;
        }
        let ghost old_order = order@;
        proof {
            // Every later entry comes after the new one.
            if p < old_order.len() {
                assert(!lex_le(lows@[old_order[p as int] as int]@, lows@[i as int]@));
                lemma_lex_le_total(lows@[old_order[p as int] as int]@, lows@[i as int]@);
            }
            assert forall|b: int| p <= b < old_order.len() implies lex_le(
                lows@[i as int]@,
                lows@[old_order[b] as int]@,
            ) by {
                if b > p {
                    lemma_lex_le_transitive(
                        lows@[i as int]@,
                        lows@[old_order[p as int] as int]@,
                        lows@[old_order[b] as int]@,
                    );
                }
            }
        }
        order.insert(p, i);
        assert(order@ == old_order.insert(p as int, i));
        assert forall|j: usize| 0 <= j < i + 1 implies #[trigger] order@.contains(j) by {
            if j == i {
                assert(order@[p as int] == i);
            } else {
                assert(old_order.contains(j));
                let a = choose|a: int| 0 <= a < old_order.len() && old_order[a] == j;
                if a < p {
                    assert(order@[a] == old_order[a]);
                } else {
                    assert(order@[a + 1] == old_order[a]);
                }
            }
        }
        assert forall|a: int| 0 <= a < order.len() implies #[trigger] order@[a] < i + 1 by {
            if a < p {
                assert(order@[a] == old_order[a]);
            } else if a > p {
                assert(order@[a] == old_order[a - 1]);
            }
        }
        assert(order@.no_duplicates()) by {
            assert forall|a: int, b: int| 0 <= a < order.len() && 0 <= b < order.len() && a != b implies order@[a]
                != order@[b] by {
                let oa = if a < p { a } else { a - 1 };
                let ob = if b < p { b } else { b - 1 };
                if a != p && b != p {
                    assert(order@[a] == old_order[oa]);
                    assert(order@[b] == old_order[ob]);
                } else if a == p {
                    assert(order@[b] == old_order[ob]);
                } else {
                    assert(order@[a] == old_order[oa]);
                }
            }
        }
        assert forall|a: int, b: int| 0 <= a < b < order.len() implies lex_le(
            lows@[order@[a] as int]@,
            lows@[order@[b] as int]@,
        ) by {
            if b < p {
                assert(order@[a] == old_order[a] && order@[b] == old_order[b]);
            } else if a > p {
                assert(order@[a] == old_order[a - 1] && order@[b] == old_order[b - 1]);
            } else if a < p && b > p {
                assert(order@[a] == old_order[a] && order@[b] == old_order[b - 1]);
            } else if a < p && b == p {
                assert(order@[a] == old_order[a]);
            } else {
                assert(a == p);
                assert(order@[b] == old_order[b - 1]);
            }
        }
    }
    let ghost o = order@.map_values(|i: usize| i as int);
    assert(o.no_duplicates()) by {
        assert forall|a: int, b: int| 0 <= a < o.len() && 0 <= b < o.len() && a != b implies o[a] != o[b] by {
            assert(order@[a] != order@[b]);
        }
    }
    assert forall|j: int| 0 <= j < pairs.len() implies o.contains(j) by {
        assert(order@.contains(j as usize));
        let a = choose|a: int| 0 <= a < order@.len() && order@[a] == j as usize;
        assert(o[a] == j);
    }
    assert forall|a: int, b: int| 0 <= a < b < o.len() implies lex_le(
        lowercase(#[trigger] pairs[o[a]].0),
        lowercase(#[trigger] pairs[o[b]].0),
    ) by {
        assert(lows@[order@[a] as int]@ == lowercase(pairs[o[a]].0));
        assert(lows@[order@[b] as int]@ == lowercase(pairs[o[b]].0));
    }
    order
}

/// Writes the runner configuration: one line per runner, sorted by
/// lower-case name, each after a newline.
pub fn get_new_config_contents(players: &NameMap<PlayerSplitsData>) -> (r: String)
    ensures
        exists|order: Seq<int>| #[trigger]
            sorted_order(players.pairs(), order) && r@ == config_text(reorder(players.pairs(), order)),
{
    let order = sort_by_lowercase(players);
    let ghost o = order@.map_values(|i: usize| i as int);
    let ghost pairs = players.pairs();
    let mut out: Vec<char> = Vec::new();
    for k in 0..order.len()
        invariant
            pairs == players.pairs(),
            o == order@.map_values(|i: usize| i as int),
            sorted_order(pairs, o),
            out@ == config_text(reorder(pairs, o.take(k as int))),
    {
        let idx = order[k];
        assert(o[k as int] == idx as int);
        let key = chars_of(players.name_at(idx).as_str());
        let p = players.value_at(idx);
        out.push('\n');
        push_splits_line(&mut out, &key, p);
        assert(reorder(pairs, o.take(k + 1)).drop_last() == reorder(pairs, o.take(k as int)));
        assert(reorder(pairs, o.take(k + 1)).last() == pairs[idx as int]);
    }
    assert(o.take(order.len() as int) == o);
    string_of(&out)
}

} // verus!

verus! {

/// Listing the entries in another order that lists each once keeps the
/// names distinct and the map the same.
pub proof fn lemma_reorder_same_map<T>(pairs: Seq<(Seq<char>, T)>, order: Seq<int>)
    requires
        keys_distinct(pairs),
        sorted_order(pairs, order),
    ensures
        keys_distinct(reorder(pairs, order)),
        entries_map(reorder(pairs, order)) == entries_map(pairs),
        sorted_order(reorder(pairs, order), Seq::new(order.len(), |i: int| i)),
{
    let r = reorder(pairs, order);
    assert forall|a: int, b: int| 0 <= a < r.len() && 0 <= b < r.len() && a != b implies r[a].0 != r[b].0 by {
        assert(order[a] != order[b]);
    }
    assert forall|k: Seq<char>| #[trigger] entries_map(r).contains_key(k) == entries_map(pairs).contains_key(k) by {
        lemma_find_key(r, k);
        lemma_find_key(pairs, k);
        if find_key(pairs, k) >= 0 {
            let j = find_key(pairs, k);
            assert(order.contains(j));
            let a = choose|a: int| 0 <= a < order.len() && order[a] == j;
            assert(r[a].0 == k);
        }
        if find_key(r, k) >= 0 {
            let a = find_key(r, k);
            assert(pairs[order[a]].0 == k);
        }
    }
    assert forall|k: Seq<char>| #[trigger] entries_map(r).contains_key(k) implies entries_map(r)[k]
        == entries_map(pairs)[k] by {
        lemma_find_key(r, k);
        let a = find_key(r, k);
        lemma_find_key_at(pairs, order[a]);
    }
    assert(entries_map(r) =~= entries_map(pairs));
    let id = Seq::new(order.len(), |i: int| i);
    assert forall|j: int| 0 <= j < r.len() implies id.contains(j) by {
        assert(id[j] == j);
    }
    assert forall|a: int, b: int| 0 <= a < b < id.len() implies lex_le(
        lowercase(#[trigger] r[id[a]].0),
        lowercase(#[trigger] r[id[b]].0),
    ) by {
        assert(id[a] == a && id[b] == b);
    }
}

} // verus!
