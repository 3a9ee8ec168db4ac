//! The slab that stores the bodies, as the body set sees it.
//!
//! Nothing in this file is proved: each function states what the `slab` crate
//! does, and the body set is verified against these statements.

use slab::Slab;
use vstd::prelude::*;
use crate::object::body::Body;
use crate::object::handle::BodyHandle;

verus! {

/// `slab::Slab`, made known so that it can stand in fields and signatures.
/// Nothing is known of what a slab holds but what the functions below state.
#[verifier::external_type_specification]
#[verifier::external_body]
#[verifier::reject_recursive_types(T)]
pub struct ExSlab<T>(Slab<T>);

/// The bodies a slab stores, by key.
pub uninterp spec fn slab_bodies(slab: Slab<Body>) -> Map<usize, Body>;

/// The key the next insertion into a slab will use.
pub uninterp spec fn slab_next_key(slab: Slab<Body>) -> usize;

/// `Slab::new`: a slab that stores nothing.
#[verifier::external_body]
pub(crate) fn slab_new() -> (store: Slab<Body>)
    ensures
        forall|k: usize| !slab_bodies(store).contains_key(k),
{
    Slab::new()
}

/// Whether `keys` lists the keys of `bodies`, each once, and there are `n`
/// of them.
pub open spec fn counts_keys(bodies: Map<usize, Body>, keys: Seq<usize>, n: usize) -> bool {
    &&& keys.len() == n
    &&& keys.no_duplicates()
    &&& forall|k: usize| keys.contains(k) <==> bodies.contains_key(k)
}

/// `Slab::len`: the number of stored values. Their keys can be listed, each
/// once, in a list of that length.
#[verifier::external_body]
pub(crate) fn slab_len(slab: &Slab<Body>) -> (n: usize)
    ensures
        exists|keys: Seq<usize>| counts_keys(slab_bodies(*slab), keys, n),
{
    slab.len()
}

/// `Slab::contains`: whether a value is stored under the key.
#[verifier::external_body]
pub(crate) fn slab_contains(slab: &Slab<Body>, key: usize) -> (b: bool)
    ensures
        b == slab_bodies(*slab).contains_key(key),
{
    slab.contains(key)
}

/// `Slab::get`: the value stored under the key, if there is one.
#[verifier::external_body]
pub(crate) fn slab_get(slab: &Slab<Body>, key: usize) -> (r: Option<&Body>)
    ensures
        r is Some <==> slab_bodies(*slab).contains_key(key),
        r is Some ==> *r.unwrap() == slab_bodies(*slab)[key],
{
    slab.get(key)
}

/// `Slab::get_mut`: mutable access to the value stored under the key, if
/// there is one. Whatever is written through the reference replaces that
/// value; the other values and the next key stay.
#[verifier::external_body]
pub(crate) fn slab_get_mut(slab: &mut Slab<Body>, key: usize) -> (r: Option<&mut Body>)
    ensures
        r is Some <==> slab_bodies(*old(slab)).contains_key(key),
        r is Some ==> *r.unwrap() == slab_bodies(*old(slab))[key],
        r is Some ==> slab_bodies(*final(slab)) == slab_bodies(*old(slab)).insert(
            key,
            *final(r.unwrap()),
        ),
        r is None ==> slab_bodies(*final(slab)) == slab_bodies(*old(slab)),
        slab_next_key(*final(slab)) == slab_next_key(*old(slab)),
{
    slab.get_mut(key)
}

/// `Slab::get2_mut`: mutable access to the values stored under two different
/// keys. It panics on equal keys and may panic on a key past the storage, so
/// both keys must hold a value; it then returns both references. Whatever is
/// written through them replaces those two values; the other values and the
/// next key stay.
#[verifier::external_body]
pub(crate) fn slab_get2_mut(slab: &mut Slab<Body>, key1: usize, key2: usize) -> (r: Option<
    (&mut Body, &mut Body),
>)
    requires
        key1 != key2,
        slab_bodies(*old(slab)).contains_key(key1),
        slab_bodies(*old(slab)).contains_key(key2),
    ensures
        r is Some,
        *r.unwrap().0 == slab_bodies(*old(slab))[key1],
        *r.unwrap().1 == slab_bodies(*old(slab))[key2],
        slab_bodies(*final(slab)) == slab_bodies(*old(slab)).insert(
            key1,
            *final(r.unwrap().0),
        ).insert(key2, *final(r.unwrap().1)),
        slab_next_key(*final(slab)) == slab_next_key(*old(slab)),
{
    slab.get2_mut(key1, key2)
}

/// `Slab::vacant_key`: the key the next insertion will use, under which
/// nothing is stored.
#[verifier::external_body]
pub(crate) fn slab_vacant_key(slab: &Slab<Body>) -> (key: usize)
    ensures
        key == slab_next_key(*slab),
        !slab_bodies(*slab).contains_key(key),
{
    slab.vacant_key()
}

/// `Slab::insert`: stores the value under the next key, under which nothing
/// was stored, and returns that key; the other values stay. Running out of
/// memory is not covered.
#[verifier::external_body]
pub(crate) fn slab_insert(slab: &mut Slab<Body>, body: Body) -> (key: usize)
    ensures
        key == slab_next_key(*old(slab)),
        !slab_bodies(*old(slab)).contains_key(key),
        slab_bodies(*final(slab)) == slab_bodies(*old(slab)).insert(key, body),
{
    slab.insert(body)
}

/// `Slab::remove`: takes out and returns the value stored under the key; the
/// other values stay. It panics where nothing is stored under the key.
#[verifier::external_body]
pub(crate) fn slab_remove(slab: &mut Slab<Body>, key: usize) -> (body: Body)
    requires
        slab_bodies(*old(slab)).contains_key(key),
    ensures
        body == slab_bodies(*old(slab))[key],
        slab_bodies(*final(slab)) == slab_bodies(*old(slab)).remove(key),
{
    slab.remove(key)
}

/// `Slab::iter`: the stored values, each with the handle of its key, in
/// increasing order of the keys.
#[verifier::external_body]
pub(crate) fn slab_entries(slab: &Slab<Body>) -> (entries: Vec<(BodyHandle, &Body)>)
    ensures
        forall|i: int, j: int|
            0 <= i < j < entries@.len() ==> (#[trigger] entries@[i]).0.slot().unwrap() < (
            #[trigger] entries@[j]).0.slot().unwrap(),
        forall|i: int|
            0 <= i < entries@.len() ==> {
                &&& (#[trigger] entries@[i]).0.slot() is Some
                &&& slab_bodies(*slab).contains_key(entries@[i].0.slot().unwrap())
                &&& *entries@[i].1 == slab_bodies(*slab)[entries@[i].0.slot().unwrap()]
            },
        forall|k: usize| #[trigger]
            slab_bodies(*slab).contains_key(k) ==> exists|i: int|
                0 <= i < entries@.len() && (#[trigger] entries@[i]).0
                    == BodyHandle::spec_indexed(k),
{
    slab.iter().map(|entry| (BodyHandle::indexed(entry.0), entry.1)).collect()
}

/// `Slab::iter_mut`: mutable access to every stored value, each with the
/// handle of its key, in increasing order of the keys. Whatever is written
/// through a reference replaces the value it points at; the set of keys and
/// the next key stay.
#[verifier::external_body]
pub(crate) fn slab_entries_mut(slab: &mut Slab<Body>) -> (entries: Vec<(BodyHandle, &mut Body)>)
    ensures
        forall|i: int, j: int|
            0 <= i < j < entries@.len() ==> (#[trigger] entries@[i]).0.slot().unwrap() < (
            #[trigger] entries@[j]).0.slot().unwrap(),
        forall|i: int|
            0 <= i < entries@.len() ==> {
                &&& (#[trigger] entries@[i]).0.slot() is Some
                &&& slab_bodies(*old(slab)).contains_key(entries@[i].0.slot().unwrap())
                &&& *entries@[i].1 == slab_bodies(*old(slab))[entries@[i].0.slot().unwrap()]
                &&& slab_bodies(*final(slab))[entries@[i].0.slot().unwrap()]
                    == *final(entries@[i].1)
            },
        forall|k: usize| #[trigger]
            slab_bodies(*old(slab)).contains_key(k) ==> exists|i: int|
                0 <= i < entries@.len() && (#[trigger] entries@[i]).0
                    == BodyHandle::spec_indexed(k),
        slab_bodies(*final(slab)).dom() == slab_bodies(*old(slab)).dom(),
        slab_next_key(*final(slab)) == slab_next_key(*old(slab)),
{
    slab.iter_mut().map(|entry| (BodyHandle::indexed(entry.0), entry.1)).collect()
}

} // verus!
