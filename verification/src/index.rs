//! The ordered map of the known workspaces, by their ids.
//!
//! The map is an `indexmap::IndexMap`. Its contents are known to the
//! contracts as a sequence of pairs of an id and a workspace, in the order in
//! which the ids were first inserted.

use vstd::prelude::*;
use indexmap::IndexMap;
use crate::workspace::{RecentWorkspace, WorkspaceModel};

verus! {

/// Makes `indexmap::IndexMap` known as a type. Nothing of its inside is
/// visible: what a map holds is known through [`index_entries`] alone.
#[verifier::external_type_specification]
#[verifier::external_body]
#[verifier::reject_recursive_types(K)]
#[verifier::reject_recursive_types(V)]
#[verifier::reject_recursive_types(S)]
pub struct ExIndexMap<K, V, S>(indexmap::IndexMap<K, V, S>);

/// What a map holds: its pairs of id and workspace, in the map's order.
pub uninterp spec fn index_entries(map: IndexMap<String, RecentWorkspace>) -> Seq<
    (Seq<char>, WorkspaceModel),
>;

/// Some pair of `entries` has the key `key`.
pub open spec fn holds_key(entries: Seq<(Seq<char>, WorkspaceModel)>, key: Seq<char>) -> bool {
    exists|p: int| 0 <= p < entries.len() && (#[trigger] entries[p]).0 == key
}

/// A position at which `entries` has the key `key`, where there is one.
pub open spec fn position_of(entries: Seq<(Seq<char>, WorkspaceModel)>, key: Seq<char>) -> int {
    choose|p: int| 0 <= p < entries.len() && (#[trigger] entries[p]).0 == key
}

/// No key stands at two positions.
pub open spec fn distinct_keys(entries: Seq<(Seq<char>, WorkspaceModel)>) -> bool {
    forall|p: int, q: int|
        0 <= p < q < entries.len() ==> (#[trigger] entries[p]).0 != (#[trigger] entries[q]).0
}

/// `entries` after `key` was set to `value`: the value is replaced in its
/// place where the key is there, and the pair is added at the end where it
/// is not.
pub open spec fn upsert(
    entries: Seq<(Seq<char>, WorkspaceModel)>,
    key: Seq<char>,
    value: WorkspaceModel,
) -> Seq<(Seq<char>, WorkspaceModel)> {
    if holds_key(entries, key) {
        entries.update(position_of(entries, key), (key, value))
    } else {
        entries.push((key, value))
    }
}

/// Calls `IndexMap::new`, which makes a map that holds nothing.
#[verifier::external_body]
pub(crate) fn index_new() -> (map: IndexMap<String, RecentWorkspace>)
    ensures
        index_entries(map) == Seq::<(Seq<char>, WorkspaceModel)>::empty(),
{
    IndexMap::new()
}

/// Calls `IndexMap::clear`, which removes every pair.
#[verifier::external_body]
pub(crate) fn index_clear(map: &mut IndexMap<String, RecentWorkspace>)
    ensures
        index_entries(*final(map)) == Seq::<(Seq<char>, WorkspaceModel)>::empty(),
{
    map.clear()
}

/// Calls `IndexMap::len`, the number of pairs.
#[verifier::external_body]
pub(crate) fn index_len(map: &IndexMap<String, RecentWorkspace>) -> (len: usize)
    ensures
        len == index_entries(*map).len(),
{
    map.len()
}

/// Calls `IndexMap::insert`. Where the map has the key, the key keeps its
/// place and its value is replaced; where it has not, the pair is added as
/// the last one.
#[verifier::external_body]
pub(crate) fn index_insert(
    map: &mut IndexMap<String, RecentWorkspace>,
    key: String,
    value: RecentWorkspace,
)
    ensures
        index_entries(*final(map)) == upsert(index_entries(*old(map)), key@, value@),
{
    map.insert(key, value);
}

/// Calls `IndexMap::get`: the value of the key, or `None` where the map has
/// not got the key.
#[verifier::external_body]
pub(crate) fn index_get<'a>(map: &'a IndexMap<String, RecentWorkspace>, key: &str) -> (found:
    Option<&'a RecentWorkspace>)
    ensures
        found.is_some() == holds_key(index_entries(*map), key@),
        match found {
            Some(workspace) => workspace@ == index_entries(*map)[position_of(
                index_entries(*map),
                key@,
            )].1,
            None => true,
        },
{
    map.get(key)
}

/// Calls `IndexMap::get_index`: the pair at a position of the map's order, or
/// `None` where the position is not below the number of pairs.
#[verifier::external_body]
pub(crate) fn index_get_index<'a>(map: &'a IndexMap<String, RecentWorkspace>, at: usize) -> (found:
    Option<(&'a String, &'a RecentWorkspace)>)
    ensures
        found.is_some() == (at < index_entries(*map).len()),
        match found {
            Some(pair) => (pair.0@, pair.1@) == index_entries(*map)[at as int],
            None => true,
        },
{
    map.get_index(at)
}

} // verus!
