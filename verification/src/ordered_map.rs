//! The insertion-ordered map of the `indexmap` crate, as the resolver uses it.
//!
//! An `IndexMap` keeps its entries in insertion order with unique keys. What
//! one holds is named by a spec function over the map, and each method the
//! library calls is a trusted wrapper whose contract says, over that name,
//! what the crate's source shows the method does.

use vstd::prelude::*;

use indexmap::IndexMap;

use crate::crud::{CrudGroup, SpecCrudGroup};
use crate::resolve::{ResolvedSchema, SpecResolvedSchema};

verus! {

#[verifier::external_type_specification]
#[verifier::external_body]
#[verifier::reject_recursive_types(K)]
#[verifier::reject_recursive_types(V)]
#[verifier::reject_recursive_types(S)]
pub struct ExIndexMap<K, V, S>(IndexMap<K, V, S>);

/// Whether no two entries share a key.
pub open spec fn keys_unique<V>(entries: Seq<(Seq<char>, V)>) -> bool {
    forall|i: int, j: int| 0 <= i < j < entries.len() ==> entries[i].0 != entries[j].0
}

/// The position of the entry whose key is `key`, if any (the first, should
/// keys repeat).
pub open spec fn key_position<V>(entries: Seq<(Seq<char>, V)>, key: Seq<char>) -> Option<int>
    decreases entries.len(),
{
    if entries.len() == 0 {
        None
    } else {
        match key_position(entries.drop_last(), key) {
            Some(i) => Some(i),
            None => if entries.last().0 == key {
                Some(entries.len() - 1)
            } else {
                None
            },
        }
    }
}

/// Inserting `key` with `value`: an existing key keeps its place and takes
/// the new value; a new key goes last.
pub open spec fn map_insert<V>(entries: Seq<(Seq<char>, V)>, key: Seq<char>, value: V) -> Seq<
    (Seq<char>, V),
> {
    match key_position(entries, key) {
        Some(i) => entries.update(i, (key, value)),
        None => entries.push((key, value)),
    }
}

/// `key_position` finds the first entry with the key, and finds none only
/// when no entry has it.
pub proof fn lemma_key_position<V>(entries: Seq<(Seq<char>, V)>, key: Seq<char>)
    ensures
        match key_position(entries, key) {
            Some(i) => 0 <= i < entries.len() && entries[i].0 == key && forall|j: int|
                0 <= j < i ==> entries[j].0 != key,
            None => forall|j: int| 0 <= j < entries.len() ==> entries[j].0 != key,
        },
    decreases entries.len(),
{
    if entries.len() > 0 {
        lemma_key_position(entries.drop_last(), key);
        assert forall|j: int| 0 <= j < entries.len() - 1 implies entries.drop_last()[j]
            == entries[j] by {}
    }
}

/// Inserting keeps keys unique.
pub proof fn lemma_insert_keeps_keys_unique<V>(
    entries: Seq<(Seq<char>, V)>,
    key: Seq<char>,
    value: V,
)
    requires
        keys_unique(entries),
    ensures
        keys_unique(map_insert(entries, key, value)),
{
    lemma_key_position(entries, key);
}

// ── Schemas by name ─────────────────────────────────────────────────────

/// What a map of resolved schemas holds: each key and the view of its
/// schema, in the map's order.
pub uninterp spec fn schema_table(m: IndexMap<String, ResolvedSchema>) -> Seq<
    (Seq<char>, SpecResolvedSchema),
>;

/// An empty map of resolved schemas.
///
/// Trusted: `IndexMap::new`, which creates a map with no entries.
#[verifier::external_body]
pub fn schema_table_new() -> (r: IndexMap<String, ResolvedSchema>)
    ensures
        schema_table(r) == Seq::<(Seq<char>, SpecResolvedSchema)>::empty(),
{
    IndexMap::new()
}

/// Inserts a schema under a name.
///
/// Trusted: `IndexMap::insert`, documented as keeping an existing key in
/// its place with the new value, or else inserting the pair last.
#[verifier::external_body]
pub fn schema_table_insert(m: &mut IndexMap<String, ResolvedSchema>, key: String, value: ResolvedSchema)
    ensures
        schema_table(*final(m)) == map_insert(schema_table(*old(m)), key@, value@),
{
    m.insert(key, value);
}

/// The schema stored under a name, if any.
///
/// Trusted: `IndexMap::get`, which returns the value of the entry whose key
/// equals `key`.
#[verifier::external_body]
pub fn schema_table_get<'a>(m: &'a IndexMap<String, ResolvedSchema>, key: &str) -> (r: Option<&'a ResolvedSchema>)
    ensures
        match key_position(schema_table(*m), key@) {
            Some(i) => r is Some && r->0@ == schema_table(*m)[i].1,
            None => r is None,
        },
{
    m.get(key)
}

/// A copy of a map of resolved schemas.
///
/// Trusted: `IndexMap::clone`, which copies the entries in order, cloning
/// each key and value; `String` and `ResolvedSchema` clones keep the view.
#[verifier::external_body]
pub fn schema_table_clone(m: &IndexMap<String, ResolvedSchema>) -> (r: IndexMap<String, ResolvedSchema>)
    ensures
        schema_table(r) == schema_table(*m),
{
    m.clone()
}

/// How many schemas the map holds.
///
/// Trusted: `IndexMap::len`, the number of entries.
#[verifier::external_body]
pub fn schema_table_len(m: &IndexMap<String, ResolvedSchema>) -> (r: usize)
    ensures
        r == schema_table(*m).len(),
{
    m.len()
}


// ── CRUD groups by resource ─────────────────────────────────────────────

/// What a map of CRUD groups holds: each key and the view of its group, in
/// the map's order.
pub uninterp spec fn crud_table(m: IndexMap<String, CrudGroup>) -> Seq<(Seq<char>, SpecCrudGroup)>;

/// An empty map of CRUD groups.
///
/// Trusted: `IndexMap::new`, which creates a map with no entries.
#[verifier::external_body]
pub fn crud_table_new() -> (r: IndexMap<String, CrudGroup>)
    ensures
        crud_table(r) == Seq::<(Seq<char>, SpecCrudGroup)>::empty(),
{
    IndexMap::new()
}

/// The position of the group stored under a name, if any.
///
/// Trusted: `IndexMap::get_index_of`, which returns the index of the entry
/// whose key equals `key`.
#[verifier::external_body]
pub fn crud_table_position(m: &IndexMap<String, CrudGroup>, key: &str) -> (r: Option<usize>)
    ensures
        match key_position(crud_table(*m), key@) {
            Some(i) => r is Some && r->0 as int == i,
            None => r is None,
        },
{
    m.get_index_of(key)
}

/// The group at a position, if the position is in range.
///
/// Trusted: `IndexMap::get_index`, which returns the key and value of the
/// entry at index `i` when `i < len`; the key is dropped here.
#[verifier::external_body]
pub fn crud_table_get_index(m: &IndexMap<String, CrudGroup>, i: usize) -> (r: Option<&CrudGroup>)
    ensures
        i < crud_table(*m).len() ==> r is Some && r->0@ == crud_table(*m)[i as int].1,
        i >= crud_table(*m).len() ==> r is None,
{
    match m.get_index(i) {
        Some((_, g)) => Some(g),
        None => None,
    }
}

/// Inserts a group under a name.
///
/// Trusted: `IndexMap::insert`, documented as keeping an existing key in
/// its place with the new value, or else inserting the pair last.
#[verifier::external_body]
pub fn crud_table_insert(m: &mut IndexMap<String, CrudGroup>, key: String, value: CrudGroup)
    ensures
        crud_table(*final(m)) == map_insert(crud_table(*old(m)), key@, value@),
{
    m.insert(key, value);
}

/// The groups, in the map's order.
///
/// Trusted: `IndexMap::into_values`, which yields the values in the map's
/// order, collected into a vector.
#[verifier::external_body]
pub fn crud_table_into_values(m: IndexMap<String, CrudGroup>) -> (r: Vec<CrudGroup>)
    ensures
        r@.map_values(|g: CrudGroup| g@) == crud_table(m).map_values(
            |e: (Seq<char>, SpecCrudGroup)| e.1,
        ),
{
    m.into_values().collect()
}

} // verus!
