//! The insertion-ordered map that the grouping is built in, and what is taken on trust
//! about it.
//!
//! The map is `linked_hash_map::LinkedHashMap`, keyed by the function name of a benchmark
//! and holding, for each name, the positions of its benchmarks. Nothing here is proved:
//! each contract says what the map's own code does.

use linked_hash_map::LinkedHashMap;
use vstd::prelude::*;

verus! {

/// `linked_hash_map::LinkedHashMap`, of which nothing is known but what the functions
/// below say.
#[verifier::external_type_specification]
#[verifier::external_body]
#[verifier::reject_recursive_types(K)]
#[verifier::reject_recursive_types(V)]
#[verifier::reject_recursive_types(S)]
pub struct ExLinkedHashMap<K, V, S>(LinkedHashMap<K, V, S>);

/// What a map holds: its entries in the order in which it is iterated, each the text of a
/// key with the value kept under it. The map iterates in the order in which its keys were
/// first inserted.
pub uninterp spec fn entries_of(map: LinkedHashMap<&Option<String>, Vec<usize>>) -> Seq<
    (Option<Seq<char>>, Seq<usize>),
>;

/// The text of a function name, if there is one. Two names are the same key of the map
/// exactly when their texts are equal.
pub open spec fn name_text(name: Option<String>) -> Option<Seq<char>> {
    match name {
        Some(s) => Some(s@),
        None => None,
    }
}

/// The position of `key` among the keys of `entries`, or `entries.len()` if it is not one.
pub open spec fn key_position(
    entries: Seq<(Option<Seq<char>>, Seq<usize>)>,
    key: Option<Seq<char>>,
) -> int
    decreases entries.len(),
{
    if entries.len() == 0 {
        0
    } else if entries[0].0 == key {
        0
    } else {
        1 + key_position(entries.drop_first(), key)
    }
}

/// Entries handed out of a map, as mathematical values: each name's text with the
/// positions kept under it.
pub open spec fn groups_view(groups: Seq<(&Option<String>, Vec<usize>)>) -> Seq<
    (Option<Seq<char>>, Seq<usize>),
> {
    Seq::new(groups.len(), |g: int| (name_text(*groups[g].0), groups[g].1@))
}

/// Calls `LinkedHashMap::new`. Taken on trust: the new map holds no entry.
#[verifier::external_body]
pub(crate) fn new_map<'a>() -> (map: LinkedHashMap<&'a Option<String>, Vec<usize>>)
    ensures
        entries_of(map) == Seq::<(Option<Seq<char>>, Seq<usize>)>::empty(),
{
    LinkedHashMap::new()
}

/// Calls `LinkedHashMap::entry` and then `Entry::or_insert`.
///
/// Taken on trust: where the map has the key, the value kept under it is handed out and
/// the entry stays where it is; where it has not, `default` is put under the key behind
/// all other entries and handed out. No other entry changes, and what the caller writes
/// through the reference is what the map then holds under the key.
#[verifier::external_body]
pub(crate) fn entry_or_insert<'a, 'b>(
    map: &'b mut LinkedHashMap<&'a Option<String>, Vec<usize>>,
    key: &'a Option<String>,
    default: Vec<usize>,
) -> (slot: &'b mut Vec<usize>)
    ensures
        ({
            let before = entries_of(*old(map));
            let p = key_position(before, name_text(*key));
            if p < before.len() {
                &&& slot@ == before[p].1
                &&& entries_of(*final(map)) == before.update(p, (name_text(*key), final(slot)@))
            } else {
                &&& slot@ == default@
                &&& entries_of(*final(map)) == before.push((name_text(*key), final(slot)@))
            }
        }),
{
    map.entry(key).or_insert(default)
}

/// Calls `LinkedHashMap::into_iter` and collects what it yields. Taken on trust: the
/// entries come out as the map held them, in its order, each key with its value.
#[verifier::external_body]
pub(crate) fn into_entries<'a>(map: LinkedHashMap<&'a Option<String>, Vec<usize>>) -> (entries: Vec<
    (&'a Option<String>, Vec<usize>),
>)
    ensures
        groups_view(entries@) == entries_of(map),
{
    map.into_iter().collect()
}

} // verus!
