//! The ordered engine mapping.
//!
//! A VDB's mapping from engine index to per-engine database name must keep its
//! insertion order, so it is held in an [`indexmap::IndexMap`].  The map is
//! opaque to the verifier; its contents are named by the uninterpreted
//! [`imap_model`], a sequence of `(engine, database-name)` pairs in map order,
//! and each method the library calls is wrapped in a trusted function whose
//! contract states, over that name, what the crate's documentation promises.

use crate::seq_keys::{first_key_index, key_value, seq_has_key};
use indexmap::IndexMap;
use vstd::prelude::*;

verus! {

/// The order-preserving map of the `indexmap` crate, declared so that it can
/// stand in fields and signatures; the verifier sees nothing inside it.
#[verifier::external_type_specification]
#[verifier::external_body]
#[verifier::reject_recursive_types(K)]
#[verifier::reject_recursive_types(V)]
#[verifier::reject_recursive_types(S)]
pub struct ExIndexMap<K, V, S>(IndexMap<K, V, S>);

/// The entries of an engine mapping, as `(key, value)` pairs in map order.
pub uninterp spec fn imap_model(m: &IndexMap<usize, String>) -> Seq<(usize, Seq<char>)>;

/// Relies on `IndexMap::new`: a freshly created map is empty.
#[verifier::external_body]
pub(crate) fn imap_new() -> (m: IndexMap<usize, String>)
    ensures
        imap_model(&m) == Seq::<(usize, Seq<char>)>::empty(),
{
    IndexMap::new()
}

/// Relies on `IndexMap::len`: the number of entries in the map.
#[verifier::external_body]
pub(crate) fn imap_len(m: &IndexMap<usize, String>) -> (n: usize)
    ensures
        n == imap_model(m).len(),
{
    m.len()
}

/// Relies on `IndexMap::get`: the value stored for `k`, if `k` is a key of the
/// map, else `None`.
#[verifier::external_body]
pub(crate) fn imap_get(m: &IndexMap<usize, String>, k: usize) -> (r: Option<String>)
    ensures
        match r {
            Some(v) => seq_has_key(imap_model(m), k) && v@ == key_value(imap_model(m), k),
            None => !seq_has_key(imap_model(m), k),
        },
{
    m.get(&k).cloned()
}

/// Relies on `IndexMap::get_index`: valid indices are `0 <= i < len`, and the
/// entry returned is the one at position `i` in map order.
#[verifier::external_body]
pub(crate) fn imap_get_index(m: &IndexMap<usize, String>, i: usize) -> (r: (usize, String))
    requires
        i < imap_model(m).len(),
    ensures
        (r.0, r.1@) == imap_model(m)[i as int],
{
    let (k, v) = m.get_index(i).unwrap();
    (*k, v.clone())
}

/// Relies on `IndexMap::insert`: a new key is appended last in order; an
/// existing key keeps its place and only its value is updated, the older value
/// being returned.
#[verifier::external_body]
pub(crate) fn imap_insert(m: &mut IndexMap<usize, String>, k: usize, v: String) -> (r: Option<String>)
    ensures
        !seq_has_key(imap_model(old(m)), k) ==> r is None && imap_model(final(m))
            == imap_model(old(m)).push((k, v@)),
        seq_has_key(imap_model(old(m)), k) ==> {
            let i = first_key_index(imap_model(old(m)), k);
            &&& r matches Some(prev) && prev@ == imap_model(old(m))[i].1
            &&& imap_model(final(m)) == imap_model(old(m)).update(i, (k, v@))
        },
{
    m.insert(k, v)
}

} // verus!
