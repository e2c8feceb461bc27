//! Hash tables with the Fowler-Noll-Vo hasher of the `fnv` crate.
//!
//! The functions here are the only way into such a table.  Each hands its arguments to the
//! table method of the same name; what they promise rests on the hasher being a function of
//! the bytes it is fed, as the source of `fnv` shows, and on the key type comparing and
//! hashing by value, which is the condition of every clause.
use fnv::FnvHashMap;
use std::collections::hash_map::Keys;
use std::hash::Hash;
use vstd::prelude::*;
use vstd::std_specs::hash::{obeys_key_model, spec_keys_iter};
use vstd::std_specs::iter::IteratorSpec;

verus! {

/// The hasher type of the `fnv` crate.
#[verifier::external_type_specification]
#[verifier::external_body]
pub struct ExFnvHasher(fnv::FnvHasher);

/// The standard library's builder that makes every hasher by its default.
#[verifier::external_type_specification]
#[verifier::external_body]
#[verifier::reject_recursive_types(H)]
pub struct ExBuildHasherDefault<H>(std::hash::BuildHasherDefault<H>);

/// `HashMap::insert` on a table of `fnv`: the key now maps to the value, and what it mapped to
/// before comes back.
#[verifier::external_body]
pub(crate) fn insert<K: Eq + Hash, V>(table: &mut FnvHashMap<K, V>, key: K, value: V) -> (r: Option<V>)
    ensures
        obeys_key_model::<K>() ==> final(table)@ == old(table)@.insert(key, value),
        obeys_key_model::<K>() ==> r == (if old(table)@.contains_key(key) {
            Some(old(table)@[key])
        } else {
            None
        }),
{
    table.insert(key, value)
}

/// `HashMap::remove` on a table of `fnv`: the key maps to nothing, and what it mapped to comes
/// back.
#[verifier::external_body]
pub(crate) fn remove<K: Eq + Hash, V>(table: &mut FnvHashMap<K, V>, key: &K) -> (r: Option<V>)
    ensures
        obeys_key_model::<K>() ==> final(table)@ == old(table)@.remove(*key),
        obeys_key_model::<K>() ==> r == (if old(table)@.contains_key(*key) {
            Some(old(table)@[*key])
        } else {
            None
        }),
{
    table.remove(key)
}

/// `HashMap::get` on a table of `fnv`: what the key maps to.
#[verifier::external_body]
pub(crate) fn get<'a, K: Eq + Hash, V>(table: &'a FnvHashMap<K, V>, key: &K) -> (r: Option<&'a V>)
    ensures
        obeys_key_model::<K>() ==> match r {
            Some(value) => table@.contains_key(*key) && *value == table@[*key],
            None => !table@.contains_key(*key),
        },
{
    table.get(key)
}

/// `HashMap::keys` on a table of `fnv`: an iterator over the keys of the table, each of them once,
/// in an order that is left open.
#[verifier::external_body]
fn iter_keys<'a, V>(table: &'a FnvHashMap<u64, V>) -> (r: Keys<'a, u64, V>)
    ensures
        r == spec_keys_iter(table),
        IteratorSpec::decrease(&r) is Some,
        IteratorSpec::initial_value_relation(&r, &r),
{
    table.keys()
}

/// Every key of a table once, in an order that is left open.
pub(crate) fn keys<V>(table: &FnvHashMap<u64, V>) -> (r: Vec<u64>)
    ensures
        r@.no_duplicates(),
        forall|key: u64| r@.contains(key) <==> table@.contains_key(key),
{
    let mut r: Vec<u64> = Vec::new();
    let keys = iter_keys(table);
    let ghost all = spec_keys_iter(table).remaining();
    for key in iter: keys
        invariant
            iter.seq() == all,
            r@.len() == iter.index(),
            forall|i: int| 0 <= i < r@.len() ==> #[trigger] r@[i] == *all[i],
    {
        r.push(*key);
    }
    proof {
        assert(all.unref().to_set() == table@.dom());
        assert(r@ =~= all.unref());
        assert forall|i: int, j: int| 0 <= i < r@.len() && 0 <= j < r@.len() && i != j implies r@[i] != r@[j] by {
            assert(all[i] != all[j]);
        }
        assert forall|key: u64| r@.contains(key) <==> table@.contains_key(key) by {
            assert(r@.to_set().contains(key) <==> table@.dom().contains(key));
        }
    }
    r
}

/// A table holds finitely many keys.
pub(crate) proof fn lemma_finite<V>(table: &FnvHashMap<u64, V>)
    ensures
        table@.dom().finite(),
{
    let keys = spec_keys_iter(table).remaining();
    assert(keys.unref().to_set() == table@.dom());
    vstd::seq_lib::seq_to_set_is_finite(keys.unref());
}

} // verus!
