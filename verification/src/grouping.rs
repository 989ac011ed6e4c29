//! Grouping of benchmarks by the function they measure.

use crate::linked_map::{
    entries_of, entry_or_insert, groups_view, into_entries, key_position, name_text, new_map,
};
use crate::model::{Benchmark, BenchmarkId};
use vstd::prelude::*;

verus! {

/// The function names of the benchmarks, in input order.
pub open spec fn names_of(all: Seq<(&BenchmarkId, &Benchmark)>) -> Seq<Option<Seq<char>>> {
    Seq::new(all.len(), |i: int| name_text(all[i].0.function_id))
}

/// The positions at which `key` occurs in `names`, ascending.
pub open spec fn positions_of(names: Seq<Option<Seq<char>>>, key: Option<Seq<char>>) -> Seq<usize>
    decreases names.len(),
{
    if names.len() == 0 {
        Seq::empty()
    } else {
        let rest = positions_of(names.drop_last(), key);
        if names.last() == key {
            rest.push((names.len() - 1) as usize)
        } else {
            rest
        }
    }
}

/// The distinct names of `names`, each where it first occurs.
pub open spec fn first_seen(names: Seq<Option<Seq<char>>>) -> Seq<Option<Seq<char>>>
    decreases names.len(),
{
    if names.len() == 0 {
        Seq::empty()
    } else {
        let rest = first_seen(names.drop_last());
        if rest.contains(names.last()) {
            rest
        } else {
            rest.push(names.last())
        }
    }
}

/// The grouping of `names`: one group for each distinct name, in the order in which the
/// names are first seen, holding every position of that name in input order.
pub open spec fn grouped(names: Seq<Option<Seq<char>>>) -> Seq<(Option<Seq<char>>, Seq<usize>)> {
    Seq::new(
        first_seen(names).len(),
        |g: int| (first_seen(names)[g], positions_of(names, first_seen(names)[g])),
    )
}

/// `key_position` finds the first entry with the key, and only reports the length when
/// there is none.
pub proof fn lemma_key_position(entries: Seq<(Option<Seq<char>>, Seq<usize>)>, key: Option<Seq<char>>)
    ensures
        0 <= key_position(entries, key) <= entries.len(),
        key_position(entries, key) < entries.len() ==> entries[key_position(entries, key)].0 == key,
        forall|q: int| 0 <= q < key_position(entries, key) ==> (#[trigger] entries[q]).0 != key,
    decreases entries.len(),
{
    if entries.len() > 0 && entries[0].0 != key {
        let rest = entries.drop_first();
        lemma_key_position(rest, key);
        assert forall|q: int| 0 <= q < key_position(entries, key) implies (#[trigger] entries[q]).0
            != key by {
            if q > 0 {
                assert(entries[q] == rest[q - 1]);
            }
        }
    }
}

/// A name is among the first-seen names exactly when it occurs, and none is listed twice.
pub proof fn lemma_first_seen(names: Seq<Option<Seq<char>>>)
    ensures
        forall|k: Option<Seq<char>>| first_seen(names).contains(k) <==> names.contains(k),
        forall|a: int, b: int|
            0 <= a < b < first_seen(names).len() ==> first_seen(names)[a] != first_seen(names)[b],
    decreases names.len(),
{
    if names.len() > 0 {
        let front = names.drop_last();
        let rest = first_seen(front);
        lemma_first_seen(front);
        assert forall|k: Option<Seq<char>>| first_seen(names).contains(k) <==> names.contains(
            k,
        ) by {
            if names.contains(k) {
                let i = choose|i: int| 0 <= i < names.len() && names[i] == k;
                if i < front.len() {
                    assert(front[i] == k);
                    assert(front.contains(k));
                    assert(rest.contains(k));
                    let j = choose|j: int| 0 <= j < rest.len() && rest[j] == k;
                    assert(first_seen(names)[j] == k);
                } else if !rest.contains(names.last()) {
                    assert(first_seen(names)[rest.len() as int] == k);
                }
            }
            if first_seen(names).contains(k) {
                let j = choose|j: int| 0 <= j < first_seen(names).len() && first_seen(names)[j] == k;
                if j < rest.len() {
                    assert(rest[j] == k);
                    assert(rest.contains(k));
                    assert(front.contains(k));
                    let i = choose|i: int| 0 <= i < front.len() && front[i] == k;
                    assert(names[i] == k);
                } else {
                    assert(names[names.len() - 1] == k);
                }
            }
        }
    }
}

/// A name that does not occur holds no position.
pub proof fn lemma_positions_of_absent(names: Seq<Option<Seq<char>>>, key: Option<Seq<char>>)
    requires
        !names.contains(key),
    ensures
        positions_of(names, key) == Seq::<usize>::empty(),
    decreases names.len(),
{
    if names.len() > 0 {
        let front = names.drop_last();
        assert(names[names.len() - 1] != key);
        assert forall|i: int| 0 <= i < front.len() implies front[i] != key by {
            assert(names[i] == front[i]);
        }
        lemma_positions_of_absent(front, key);
    }
}

/// The positions of a name lie in the input, carry that name, and ascend.
pub proof fn lemma_positions_of(names: Seq<Option<Seq<char>>>, key: Option<Seq<char>>)
    requires
        names.len() <= usize::MAX,
    ensures
        forall|t: int|
            0 <= t < positions_of(names, key).len() ==> {
                &&& (#[trigger] positions_of(names, key)[t]) < names.len()
                &&& names[positions_of(names, key)[t] as int] == key
            },
        forall|s: int, t: int|
            0 <= s < t < positions_of(names, key).len() ==> positions_of(names, key)[s]
                < positions_of(names, key)[t],
    decreases names.len(),
{
    if names.len() > 0 {
        lemma_positions_of(names.drop_last(), key);
    }
}

/// What one more benchmark does to the grouping: it joins the group of its name where
/// there is one, and otherwise opens a new group behind the others.
pub proof fn lemma_grouped_step(names: Seq<Option<Seq<char>>>)
    requires
        0 < names.len() <= usize::MAX,
    ensures
        ({
            let before = grouped(names.drop_last());
            let last = (names.len() - 1) as usize;
            let p = key_position(before, names.last());
            if p < before.len() {
                grouped(names) == before.update(p, (names.last(), before[p].1.push(last)))
            } else {
                grouped(names) == before.push((names.last(), Seq::<usize>::empty().push(last)))
            }
        }),
{
    let front = names.drop_last();
    let key = names.last();
    let before = grouped(front);
    let p = key_position(before, key);
    let last = (names.len() - 1) as usize;
    lemma_key_position(before, key);
    lemma_first_seen(front);
    if p < before.len() {
        assert(first_seen(front)[p] == key);
        assert(first_seen(front).contains(key));
        assert(grouped(names) =~= before.update(p, (key, before[p].1.push(last))));
    } else {
        assert(!first_seen(front).contains(key)) by {
            if first_seen(front).contains(key) {
                let j = choose|j: int| 0 <= j < first_seen(front).len() && first_seen(front)[j] == key;
                assert(before[j].0 == key);
            }
        }
        lemma_positions_of_absent(front, key);
        assert(grouped(names) =~= before.push((key, Seq::<usize>::empty().push(last))));
    }
}

/// The benchmark at position `i` is in the group of its name.
pub open spec fn is_grouped_at(names: Seq<Option<Seq<char>>>, i: int) -> bool {
    exists|g: int|
        0 <= g < grouped(names).len() && (#[trigger] grouped(names)[g]).0 == names[i] && grouped(
            names,
        )[g].1.contains(i as usize)
}

/// A position is listed under the name that stands there.
pub proof fn lemma_position_listed(names: Seq<Option<Seq<char>>>, i: int)
    requires
        0 <= i < names.len() <= usize::MAX,
    ensures
        positions_of(names, names[i]).contains(i as usize),
    decreases names.len(),
{
    let front = names.drop_last();
    let rest = positions_of(front, names[i]);
    if i == names.len() - 1 {
        assert(positions_of(names, names[i])[rest.len() as int] == i as usize);
    } else {
        lemma_position_listed(front, i);
        let t = choose|t: int| 0 <= t < rest.len() && rest[t] == i as usize;
        assert(positions_of(names, names[i])[t] == i as usize);
    }
}

/// Grouping keeps the order in which the function names are first seen, whatever the
/// order of the input: no name has two groups, no group is empty, every group holds the
/// positions of its name in ascending order, a group that stands before another begins
/// earlier in the input, and every benchmark is in the group of its name.
pub proof fn lemma_groups_in_first_seen_order(names: Seq<Option<Seq<char>>>)
    requires
        names.len() <= usize::MAX,
    ensures
        forall|a: int, b: int|
            0 <= a < b < grouped(names).len() ==> (#[trigger] grouped(names)[a]).0 != (
            #[trigger] grouped(names)[b]).0,
        forall|g: int|
            0 <= g < grouped(names).len() ==> (#[trigger] grouped(names)[g]).1.len() > 0,
        forall|g: int, t: int|
            0 <= g < grouped(names).len() && 0 <= t < grouped(names)[g].1.len() ==> {
                &&& (#[trigger] grouped(names)[g].1[t]) < names.len()
                &&& names[grouped(names)[g].1[t] as int] == grouped(names)[g].0
            },
        forall|g: int, s: int, t: int|
            0 <= g < grouped(names).len() && 0 <= s < t < grouped(names)[g].1.len()
                ==> #[trigger] grouped(names)[g].1[s] < #[trigger] grouped(names)[g].1[t],
        forall|a: int, b: int|
            0 <= a < b < grouped(names).len() ==> (#[trigger] grouped(names)[a]).1[0] < (
            #[trigger] grouped(names)[b]).1[0],
        forall|i: int| 0 <= i < names.len() ==> #[trigger] is_grouped_at(names, i),
    decreases names.len(),
{
    let groups = grouped(names);
    let keys = first_seen(names);
    lemma_first_seen(names);
    assert forall|g: int, t: int| 0 <= g < groups.len() && 0 <= t < groups[g].1.len() implies {
        &&& (#[trigger] groups[g].1[t]) < names.len()
        &&& names[groups[g].1[t] as int] == groups[g].0
    } by {
        lemma_positions_of(names, keys[g]);
    }
    assert forall|g: int, s: int, t: int|
        0 <= g < groups.len() && 0 <= s < t < groups[g].1.len() implies #[trigger] groups[g].1[s]
        < #[trigger] groups[g].1[t] by {
        lemma_positions_of(names, keys[g]);
    }
    assert forall|i: int| 0 <= i < names.len() implies #[trigger] is_grouped_at(names, i) by {
        assert(names.contains(names[i]));
        assert(keys.contains(names[i]));
        let g = choose|g: int| 0 <= g < keys.len() && keys[g] == names[i];
        lemma_position_listed(names, i);
        assert(groups[g].0 == names[i] && groups[g].1.contains(i as usize));
    }
    if names.len() > 0 {
        let front = names.drop_last();
        let before = grouped(front);
        lemma_groups_in_first_seen_order(front);
        lemma_grouped_step(names);
        lemma_key_position(before, names.last());
        assert forall|g: int| 0 <= g < groups.len() implies (#[trigger] groups[g]).1.len()
            > 0 by {
            if g < before.len() {
                assert(before[g].1.len() > 0);
            }
        }
        assert forall|a: int, b: int| 0 <= a < b < groups.len() implies (#[trigger] groups[a]).1[0]
            < (#[trigger] groups[b]).1[0] by {
            assert(before[a].1.len() > 0);
            assert(groups[a].1[0] == before[a].1[0]);
            lemma_positions_of(front, before[a].0);
            if b < before.len() {
                assert(before[b].1.len() > 0);
                assert(groups[b].1[0] == before[b].1[0]);
            }
        }
    }
}

/// Groups the benchmarks by function name. The groups come in the order in which their
/// names are first seen; each holds the positions of its benchmarks in input order.
pub fn group_by_function<'a>(all_benchmarks: &[(&'a BenchmarkId, &'a Benchmark)]) -> (groups: Vec<
    (&'a Option<String>, Vec<usize>),
>)
    ensures
        groups_view(groups@) == grouped(names_of(all_benchmarks@)),
{
    let ghost names = names_of(all_benchmarks@);
    let mut map = new_map();
    let mut i: usize = 0;
    while i < all_benchmarks.len()
        invariant
            i <= all_benchmarks.len(),
            names == names_of(all_benchmarks@),
            entries_of(map) == grouped(names.take(i as int)),
        decreases all_benchmarks.len() - i,
    {
        let id: &'a BenchmarkId = all_benchmarks[i].0;
        let slot = entry_or_insert(&mut map, &id.function_id, Vec::new());
        slot.push(i);
        proof {
            let upto = names.take(i + 1);
            assert(upto.drop_last() == names.take(i as int));
            assert(upto.last() == name_text(id.function_id));
            lemma_grouped_step(upto);
        }
        i += 1;
    }
    proof {
        assert(names.take(i as int) == names);
    }
    into_entries(map)
}

} // verus!
