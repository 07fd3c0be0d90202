//! Hashed sets and maps of identifiers, kept in `im`'s persistent
//! collections. A copy shares its structure with the value it was taken
//! from and never sees later changes to it.

use vstd::prelude::*;

verus! {

/// `im::HashSet`, taken as it is: nothing is known of what is inside but
/// through [`uid_set_members`].
#[verifier::external_type_specification]
#[verifier::external_body]
#[verifier::reject_recursive_types(A)]
#[verifier::reject_recursive_types(S)]
pub struct ExImHashSet<A, S>(im::HashSet<A, S>);

/// `im::HashMap`, taken as it is: nothing is known of what is inside but
/// through [`uid_map_entries`].
#[verifier::external_type_specification]
#[verifier::external_body]
#[verifier::reject_recursive_types(K)]
#[verifier::reject_recursive_types(V)]
#[verifier::reject_recursive_types(S)]
pub struct ExImHashMap<K, V, S>(im::HashMap<K, V, S>);

/// A hashed set of identifiers.
pub type UidSet = im::HashSet<u128>;

/// A hashed map from identifiers to identifiers.
pub type UidMap = im::HashMap<u128, u128>;

/// The identifiers that a hashed set holds.
pub uninterp spec fn uid_set_members(s: im::HashSet<u128>) -> Set<u128>;

/// The entries that a hashed map of identifiers holds.
pub uninterp spec fn uid_map_entries(m: im::HashMap<u128, u128>) -> Map<u128, u128>;

/// `im::HashSet::new`: a set without members.
#[verifier::external_body]
pub(crate) fn uid_set_new() -> (s: UidSet)
    ensures
        uid_set_members(s) == Set::<u128>::empty(),
{
    im::HashSet::new()
}

/// `im::HashSet::insert`: afterwards the set holds `id` besides what it
/// held before.
#[verifier::external_body]
pub(crate) fn uid_set_insert(s: &mut UidSet, id: u128)
    ensures
        uid_set_members(*final(s)) == uid_set_members(*old(s)).insert(id),
{
    s.insert(id);
}

/// `im::HashSet::contains`: whether `id` is a member.
#[verifier::external_body]
pub(crate) fn uid_set_contains(s: &UidSet, id: u128) -> (b: bool)
    ensures
        b == uid_set_members(*s).contains(id),
{
    s.contains(&id)
}

/// `im::HashSet::clone`: a set with the same members.
#[verifier::external_body]
pub(crate) fn uid_set_clone(s: &UidSet) -> (r: UidSet)
    ensures
        uid_set_members(r) == uid_set_members(*s),
{
    s.clone()
}

/// `im::HashMap::new`: a map without entries.
#[verifier::external_body]
pub(crate) fn uid_map_new() -> (m: UidMap)
    ensures
        uid_map_entries(m).dom() == Set::<u128>::empty(),
{
    im::HashMap::new()
}

/// `im::HashMap::insert`: afterwards `key` maps to `value`, and every other
/// key to what it mapped to before.
#[verifier::external_body]
pub(crate) fn uid_map_insert(m: &mut UidMap, key: u128, value: u128)
    ensures
        uid_map_entries(*final(m)) == uid_map_entries(*old(m)).insert(key, value),
{
    m.insert(key, value);
}

/// `im::HashMap::get`: the value under `key`, if the map has that key.
#[verifier::external_body]
pub(crate) fn uid_map_get(m: &UidMap, key: u128) -> (r: Option<u128>)
    ensures
        r == (if uid_map_entries(*m).dom().contains(key) {
            Some(uid_map_entries(*m)[key])
        } else {
            None
        }),
{
    m.get(&key).copied()
}

/// `im::HashMap::clone`: a map with the same entries.
#[verifier::external_body]
pub(crate) fn uid_map_clone(m: &UidMap) -> (r: UidMap)
    ensures
        uid_map_entries(r) == uid_map_entries(*m),
{
    m.clone()
}

} // verus!
