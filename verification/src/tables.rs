use bevy::platform::collections::HashMap;
use bevy::platform::hash::FixedHasher;
use core::hash::BuildHasher;
use vstd::prelude::*;

verus! {

/// `bevy::platform::collections::HashMap`, opaque to the verifier.
#[verifier::external_type_specification]
#[verifier::external_body]
#[verifier::reject_recursive_types(K)]
#[verifier::reject_recursive_types(V)]
#[verifier::reject_recursive_types(S)]
pub struct ExHashMap<K, V, S>(HashMap<K, V, S>);

/// `bevy::platform::hash::FixedHasher`, opaque to the verifier.
#[verifier::external_type_specification]
#[verifier::external_body]
pub struct ExFixedHasher(FixedHasher);

/// What `FixedHasher` makes of a string: `bevy_platform` documents the hasher
/// as deterministic, built on a state that is fixed in its source, so within
/// one build the hash depends on the characters alone.
pub uninterp spec fn fixed_hash(text: Seq<char>) -> u64;

/// The entries held by a table from name hashes to pool indices.
pub uninterp spec fn hash_table_entries(table: HashMap<u64, u32>) -> Map<u64, u32>;

/// The entries held by a table from interned names to registered indices.
pub uninterp spec fn name_table_entries(table: HashMap<u32, u16>) -> Map<u32, u16>;

/// The table from name hashes to pool indices that holds no entry.
pub open spec fn no_hash_entries() -> Map<u64, u32> {
    Map::empty()
}

/// The table from interned names to registered indices that holds no entry.
pub open spec fn no_name_entries() -> Map<u32, u16> {
    Map::empty()
}

/// `BuildHasher::hash_one` of `FixedHasher`: the text is fed to a hasher
/// built by `FixedHasher`, which is then finished. Trusted: the result is the
/// fixed hash of the characters of `input`.
#[verifier::external_body]
pub(crate) fn compute_hash(input: &str) -> (hash: u64)
    ensures
        hash == fixed_hash(input@),
{
    FixedHasher::default().hash_one(input)
}

/// `HashMap::new`. Trusted: the new table holds no entry.
#[verifier::external_body]
pub(crate) fn hash_table_new() -> (table: HashMap<u64, u32>)
    ensures
        hash_table_entries(table) == no_hash_entries(),
{
    HashMap::new()
}

/// `HashMap::get`. Trusted: the value stored under `key`, if there is one.
#[verifier::external_body]
pub(crate) fn hash_table_get(table: &HashMap<u64, u32>, key: u64) -> (found: Option<u32>)
    ensures
        found == (if hash_table_entries(*table).contains_key(key) {
            Some(hash_table_entries(*table)[key])
        } else {
            None
        }),
{
    table.get(&key).copied()
}

/// `HashMap::insert`. Trusted: afterwards `key` maps to `value`, whether or
/// not it was present, and every other entry is as before.
#[verifier::external_body]
pub(crate) fn hash_table_insert(table: &mut HashMap<u64, u32>, key: u64, value: u32)
    ensures
        hash_table_entries(*final(table)) == hash_table_entries(*old(table)).insert(key, value),
{
    table.insert(key, value);
}

/// `HashMap::clear`. Trusted: afterwards the table holds no entry.
#[verifier::external_body]
pub(crate) fn hash_table_clear(table: &mut HashMap<u64, u32>)
    ensures
        hash_table_entries(*final(table)) == no_hash_entries(),
{
    table.clear();
}

/// `HashMap::new`. Trusted: the new table holds no entry.
#[verifier::external_body]
pub(crate) fn name_table_new() -> (table: HashMap<u32, u16>)
    ensures
        name_table_entries(table) == no_name_entries(),
{
    HashMap::new()
}

/// `HashMap::get`. Trusted: the value stored under `key`, if there is one.
#[verifier::external_body]
pub(crate) fn name_table_get(table: &HashMap<u32, u16>, key: u32) -> (found: Option<u16>)
    ensures
        found == (if name_table_entries(*table).contains_key(key) {
            Some(name_table_entries(*table)[key])
        } else {
            None
        }),
{
    table.get(&key).copied()
}

/// `HashMap::insert`. Trusted: afterwards `key` maps to `value`, whether or
/// not it was present, and every other entry is as before.
#[verifier::external_body]
pub(crate) fn name_table_insert(table: &mut HashMap<u32, u16>, key: u32, value: u16)
    ensures
        name_table_entries(*final(table)) == name_table_entries(*old(table)).insert(key, value),
{
    table.insert(key, value);
}

} // verus!
