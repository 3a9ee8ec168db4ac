//! The set that owns the bodies.

use slab::Slab;
use vstd::prelude::*;
use crate::object::body::{Body, BodyDesc};
use crate::object::handle::BodyHandle;
use crate::object::slab_store::{
    counts_keys, slab_bodies, slab_contains, slab_entries, slab_entries_mut, slab_get,
    slab_get2_mut, slab_get_mut, slab_insert, slab_len, slab_new, slab_next_key, slab_remove,
    slab_vacant_key,
};

verus! {

/// A set of bodies addressed by handles.
pub trait BodySet {
    /// The bodies the set holds.
    type Body;

    /// The handles by which the set addresses its bodies.
    type Handle: Copy;

    /// The bodies of the set, by handle.
    spec fn bodies_by_handle(&self) -> Map<Self::Handle, Self::Body>;

    /// Whether `foreach` and `foreach_mut` visit the body behind the handle.
    spec fn visits(&self, handle: Self::Handle) -> bool;

    /// Reference to the body behind the handle, `None` if there is none.
    fn get(&self, handle: Self::Handle) -> (r: Option<&Self::Body>)
        ensures
            r is Some <==> self.bodies_by_handle().contains_key(handle),
            r is Some ==> *r.unwrap() == self.bodies_by_handle()[handle],
    ;

    /// Mutable reference to the body behind the handle, `None` if there is
    /// none. What is written through it becomes the body behind the handle.
    fn get_mut(&mut self, handle: Self::Handle) -> (r: Option<&mut Self::Body>)
        ensures
            r is Some <==> old(self).bodies_by_handle().contains_key(handle),
            r is Some ==> *r.unwrap() == old(self).bodies_by_handle()[handle],
            r is Some ==> final(self).bodies_by_handle() =~= old(self).bodies_by_handle().insert(
                handle,
                *final(r.unwrap()),
            ),
            r is None ==> final(self).bodies_by_handle() =~= old(self).bodies_by_handle(),
    ;

    /// Mutable references to the bodies behind two different handles, each
    /// `None` if there is no such body. What is written through either
    /// becomes the body behind its handle, whatever is written through the
    /// other.
    fn get_pair_mut(&mut self, handle1: Self::Handle, handle2: Self::Handle) -> (r: (
        Option<&mut Self::Body>,
        Option<&mut Self::Body>,
    ))
        requires
            handle1 != handle2,
        ensures
            r.0 is Some <==> old(self).bodies_by_handle().contains_key(handle1),
            r.1 is Some <==> old(self).bodies_by_handle().contains_key(handle2),
            r.0 is Some ==> *r.0.unwrap() == old(self).bodies_by_handle()[handle1],
            r.1 is Some ==> *r.1.unwrap() == old(self).bodies_by_handle()[handle2],
            r.0 is Some && r.1 is Some ==> final(self).bodies_by_handle() =~= old(
                self).bodies_by_handle().insert(handle1, *final(r.0.unwrap())).insert(
                handle2,
                *final(r.1.unwrap()),
            ),
            r.0 is Some && r.1 is None ==> final(self).bodies_by_handle() =~= old(
                self).bodies_by_handle().insert(handle1, *final(r.0.unwrap())),
            r.0 is None && r.1 is Some ==> final(self).bodies_by_handle() =~= old(
                self).bodies_by_handle().insert(handle2, *final(r.1.unwrap())),
            r.0 is None && r.1 is None ==> final(self).bodies_by_handle() =~= old(
                self).bodies_by_handle(),
    ;

    /// Whether there is a body behind the handle.
    fn contains(&self, handle: Self::Handle) -> (b: bool)
        ensures
            b == self.bodies_by_handle().contains_key(handle),
    ;

    /// Calls `f` once on each visited body, with its handle.
    fn foreach<F: FnMut(Self::Handle, &Self::Body)>(&self, f: F)
        requires
            forall|h: Self::Handle|
                self.bodies_by_handle().contains_key(h) && self.visits(h) ==> call_requires(
                    f,
                    (h, &#[trigger] self.bodies_by_handle()[h]),
                ),
    ;

    /// Calls `f` once on each visited body, with its handle. The set then
    /// holds behind each visited handle what `f` has made of its body; the
    /// other bodies stay.
    fn foreach_mut<F: FnMut(Self::Handle, &mut Self::Body)>(&mut self, f: F)
        requires
            forall|h: Self::Handle, m: &mut Self::Body|
                old(self).bodies_by_handle().contains_key(h) && old(self).visits(h) && *m
                    == old(self).bodies_by_handle()[h] ==> #[trigger] call_requires(f, (h, m)),
        ensures
            final(self).bodies_by_handle().dom() =~= old(self).bodies_by_handle().dom(),
            forall|h: Self::Handle|
                old(self).bodies_by_handle().contains_key(h) && !old(self).visits(h)
                    ==> #[trigger] final(self).bodies_by_handle()[h]
                    == old(self).bodies_by_handle()[h],
            forall|h: Self::Handle|
                #[trigger] old(self).bodies_by_handle().contains_key(h) && old(self).visits(h)
                    ==> exists|m: &mut Self::Body|
                    *m == old(self).bodies_by_handle()[h] && *final(m) == final(
                        self).bodies_by_handle()[h] && call_ensures(f, (h, m), ()),
    ;
}

/// Writes behind two different handles do not touch one another: whichever
/// is made first, each handle holds what was written behind it, and every
/// other handle holds what it held.
pub proof fn lemma_pair_writes_are_independent<H, B>(
    bodies: Map<H, B>,
    handle1: H,
    written1: B,
    handle2: H,
    written2: B,
)
    requires
        handle1 != handle2,
    ensures
        bodies.insert(handle1, written1).insert(handle2, written2) == bodies.insert(
            handle2,
            written2,
        ).insert(handle1, written1),
        bodies.insert(handle1, written1).insert(handle2, written2)[handle1] == written1,
        bodies.insert(handle1, written1).insert(handle2, written2)[handle2] == written2,
        forall|h: H|
            h != handle1 && h != handle2 && bodies.contains_key(h) ==> #[trigger] bodies.insert(
                handle1,
                written1,
            ).insert(handle2, written2)[h] == bodies[h],
{
    assert(bodies.insert(handle1, written1).insert(handle2, written2) =~= bodies.insert(
        handle2,
        written2,
    ).insert(handle1, written1));
}

/// A set containing all the bodies added to the world.
///
/// The set always holds the ground. Every other body lives in a slot, and its
/// handle names that slot.
pub struct BodySlab {
    ground: Body,
    bodies: Slab<Body>,
}

impl BodySlab {
    /// The bodies of the set by handle: the ground and the stored bodies.
    pub closed spec fn view(&self) -> Map<BodyHandle, Body> {
        Map::new(
            |h: BodyHandle|
                match h.slot() {
                    None => true,
                    Some(k) => slab_bodies(self.bodies).contains_key(k),
                },
            |h: BodyHandle|
                match h.slot() {
                    None => self.ground,
                    Some(k) => slab_bodies(self.bodies)[k],
                },
        )
    }

    /// The handle the next body added to the set will get.
    pub closed spec fn spec_next_handle(&self) -> BodyHandle {
        BodyHandle::spec_indexed(slab_next_key(self.bodies))
    }

    /// The ground is always in the set.
    pub broadcast proof fn lemma_ground_in_set(&self)
        ensures
            #[trigger] self@.contains_key(BodyHandle::spec_ground()),
    {
        broadcast use BodyHandle::lemma_handle_of_slot;

    }

    /// Create a new empty set of bodies.
    pub fn new() -> (s: Self)
        ensures
            s@ =~= Map::<BodyHandle, Body>::empty().insert(
                BodyHandle::spec_ground(),
                Body::spec_ground(),
            ),
            s@.dom().finite(),
    {
        broadcast use {BodyHandle::lemma_slot_of_handle, BodyHandle::lemma_handle_of_slot};

        let s = BodySlab { ground: Body::ground(), bodies: slab_new() };
        assert(s@.dom() =~= Set::<BodyHandle>::empty().insert(BodyHandle::spec_ground()));
        s
    }

    /// The number of bodies in this set: the ground is not counted.
    pub fn len(&self) -> (n: usize)
        ensures
            self@.dom().finite(),
            n + 1 == self@.dom().len(),
    {
        broadcast use {BodyHandle::lemma_slot_of_handle, BodyHandle::lemma_handle_of_slot};

        let n = slab_len(&self.bodies);
        proof {
            let slots = slab_bodies(self.bodies).dom();
            let keys = choose|keys: Seq<usize>| counts_keys(slab_bodies(self.bodies), keys, n);
            assert(keys.to_set() =~= slots);
            keys.unique_seq_to_set();
            vstd::seq_lib::seq_to_set_is_finite(keys);
            let handle_of = |k: usize| BodyHandle::spec_indexed(k);
            let handles = slots.map(handle_of);
            assert(vstd::relations::injective_on(handle_of, slots)) by {
                assert forall|k1: usize, k2: usize|
                    slots.contains(k1) && slots.contains(k2) && handle_of(k1) == handle_of(
                        k2,
                    ) implies k1 == k2 by {
                    assert(BodyHandle::spec_indexed(k1).slot() == Some(k1));
                    assert(BodyHandle::spec_indexed(k2).slot() == Some(k2));
                }
            }
            vstd::set_lib::lemma_map_size(slots, handles, handle_of);
            assert(!handles.contains(BodyHandle::spec_ground())) by {
                if handles.contains(BodyHandle::spec_ground()) {
                    let k = choose|k: usize|
                        slots.contains(k) && BodyHandle::spec_ground() == handle_of(k);
                    assert(BodyHandle::spec_indexed(k).slot() == Some(k));
                }
            }
            assert(self@.dom() =~= handles.insert(BodyHandle::spec_ground())) by {
                assert forall|h: BodyHandle| self@.dom().contains(h) implies handles.insert(
                    BodyHandle::spec_ground(),
                ).contains(h) by {
                    match h.slot() {
                        None => {},
                        Some(k) => {
                            assert(slots.contains(k));
                            assert(h == handle_of(k));
                        },
                    }
                }
            }
        }
        n
    }

    /// The handle the next body added to the set will get. It names no body
    /// of the set, and is not the ground.
    pub fn next_handle(&self) -> (h: BodyHandle)
        ensures
            h == self.spec_next_handle(),
            !self@.contains_key(h),
            h != BodyHandle::spec_ground(),
    {
        broadcast use {BodyHandle::lemma_slot_of_handle, BodyHandle::lemma_handle_of_slot};

        BodyHandle::indexed(slab_vacant_key(&self.bodies))
    }

    /// Stores a body under the next handle of the set, and returns that
    /// handle. The other bodies stay.
    pub fn insert_body(&mut self, body: Body) -> (h: BodyHandle)
        ensures
            h == old(self).spec_next_handle(),
            !old(self)@.contains_key(h),
            h != BodyHandle::spec_ground(),
            final(self)@ =~= old(self)@.insert(h, body),
    {
        broadcast use {BodyHandle::lemma_slot_of_handle, BodyHandle::lemma_handle_of_slot};

        let key = slab_insert(&mut self.bodies, body);
        BodyHandle::indexed(key)
    }

    /// Adds a body to the world: the descriptor builds it for the next handle
    /// of the set, and the set stores what was built under that handle. The
    /// other bodies stay.
    pub fn add_body<D: BodyDesc>(&mut self, desc: &D) -> (h: BodyHandle)
        ensures
            h == old(self).spec_next_handle(),
            !old(self)@.contains_key(h),
            h != BodyHandle::spec_ground(),
            final(self)@ =~= old(self)@.insert(h, desc.spec_build_with_handle(h)),
    {
        let handle = self.next_handle();
        let body = desc.build_with_handle(handle);
        self.insert_body(body)
    }

    /// Remove a body from this set. The ground is never removed, and a handle
    /// that names no body removes nothing.
    pub fn remove_body(&mut self, body: BodyHandle)
        ensures
            body == BodyHandle::spec_ground() ==> final(self)@ =~= old(self)@,
            body != BodyHandle::spec_ground() ==> final(self)@ =~= old(self)@.remove(body),
    {
        broadcast use {BodyHandle::lemma_slot_of_handle, BodyHandle::lemma_handle_of_slot};

        match body.index() {
            None => {},
            Some(k) => {
                if slab_contains(&self.bodies, k) {
                    let _ = slab_remove(&mut self.bodies, k);
                }
            },
        }
    }

    /// Returns `true` if the given body exists.
    #[inline]
    pub fn contains(&self, handle: BodyHandle) -> (b: bool)
        ensures
            b == self@.contains_key(handle),
    {
        broadcast use {BodyHandle::lemma_slot_of_handle, BodyHandle::lemma_handle_of_slot};

        match handle.index() {
            None => true,
            Some(k) => slab_contains(&self.bodies, k),
        }
    }

    /// Reference to the body identified by `handle`.
    ///
    /// Returns `None` if the body is not found.
    #[inline]
    pub fn body(&self, handle: BodyHandle) -> (r: Option<&Body>)
        ensures
            r is Some <==> self@.contains_key(handle),
            r is Some ==> *r.unwrap() == self@[handle],
    {
        broadcast use {BodyHandle::lemma_slot_of_handle, BodyHandle::lemma_handle_of_slot};

        match handle.index() {
            None => Some(&self.ground),
            Some(k) => slab_get(&self.bodies, k),
        }
    }

    /// Mutable reference to the specified body.
    ///
    /// Returns `None` if the body is not found. What is written through the
    /// reference becomes the body behind the handle; the other bodies stay.
    #[inline]
    pub fn body_mut(&mut self, handle: BodyHandle) -> (r: Option<&mut Body>)
        ensures
            r is Some <==> old(self)@.contains_key(handle),
            r is Some ==> *r.unwrap() == old(self)@[handle],
            r is Some ==> final(self)@ =~= old(self)@.insert(handle, *final(r.unwrap())),
            r is None ==> final(self)@ =~= old(self)@,
    {
        broadcast use {BodyHandle::lemma_slot_of_handle, BodyHandle::lemma_handle_of_slot};

        match handle.index() {
            None => Some(&mut self.ground),
            Some(k) => slab_get_mut(&mut self.bodies, k),
        }
    }

    /// The slots of the bodies of the set, in increasing order.
    fn slots(&self) -> (keys: Vec<usize>)
        ensures
            forall|a: int, b: int| 0 <= a < b < keys@.len() ==> keys@[a] < keys@[b],
            forall|k: usize| keys@.contains(k) <==> slab_bodies(self.bodies).contains_key(k),
    {
        broadcast use {BodyHandle::lemma_slot_of_handle, BodyHandle::lemma_handle_of_slot};

        let entries = slab_entries(&self.bodies);
        let mut keys: Vec<usize> = Vec::new();
        let mut i: usize = 0;
        while i < entries.len()
            invariant
                i <= entries.len(),
                keys@.len() == i,
                forall|k: int|
                    0 <= k < entries@.len() ==> (#[trigger] entries@[k]).0.slot() is Some,
                forall|k: int| 0 <= k < i ==> Some(#[trigger] keys@[k]) == entries@[k].0.slot(),
            decreases entries.len() - i,
        {
            match entries[i].0.index() {
                Some(k) => {
                    keys.push(k);
                },
                None => {
                    assert(entries@[i as int].0.slot() is Some);
                },
            }
            i += 1;
        }
        proof {
            assert forall|a: int, b: int| 0 <= a < b < keys@.len() implies keys@[a] < keys@[b] by {
                assert(Some(keys@[a]) == entries@[a].0.slot());
                assert(Some(keys@[b]) == entries@[b].0.slot());
            }
            assert forall|k: usize| keys@.contains(k) implies slab_bodies(
                self.bodies,
            ).contains_key(k) by {
                let a = choose|a: int| 0 <= a < keys@.len() && keys@[a] == k;
                assert(Some(keys@[a]) == entries@[a].0.slot());
            }
            assert forall|k: usize| slab_bodies(self.bodies).contains_key(k) implies keys@.contains(
                k,
            ) by {
                let a = choose|a: int|
                    0 <= a < entries@.len() && (#[trigger] entries@[a]).0
                        == BodyHandle::spec_indexed(k);
                assert(Some(keys@[a]) == entries@[a].0.slot());
                assert(keys@[a] == k);
            }
        }
        keys
    }

    /// All the bodies on this set but the ground, each with its handle, in
    /// increasing order of their slots.
    #[inline]
    pub fn bodies(&self) -> (listed: Vec<(BodyHandle, &Body)>)
        ensures
            forall|i: int, j: int|
                0 <= i < j < listed@.len() ==> (#[trigger] listed@[i]).0.slot().unwrap() < (
                #[trigger] listed@[j]).0.slot().unwrap(),
            forall|i: int|
                0 <= i < listed@.len() ==> {
                    &&& (#[trigger] listed@[i]).0 != BodyHandle::spec_ground()
                    &&& self@.contains_key(listed@[i].0)
                    &&& *listed@[i].1 == self@[listed@[i].0]
                },
            forall|h: BodyHandle| #[trigger]
                self@.contains_key(h) && h != BodyHandle::spec_ground() ==> exists|i: int|
                    0 <= i < listed@.len() && (#[trigger] listed@[i]).0 == h,
    {
        broadcast use {BodyHandle::lemma_slot_of_handle, BodyHandle::lemma_handle_of_slot};

        let listed = slab_entries(&self.bodies);
        proof {
            assert(BodyHandle::spec_ground().slot() is None);
            assert forall|h: BodyHandle| #[trigger]
                self@.contains_key(h) && h != BodyHandle::spec_ground() implies exists|i: int|
                0 <= i < listed@.len() && (#[trigger] listed@[i]).0 == h by {
                let k = h.slot().unwrap();
                assert(slab_bodies(self.bodies).contains_key(k));
                assert(h == BodyHandle::spec_indexed(k));
            }
        }
        listed
    }

    /// Mutable references to all the bodies on this set but the ground, each
    /// with its handle, in increasing order of their slots. What is written
    /// through a reference becomes the body behind its handle; the ground
    /// stays.
    #[inline]
    pub fn bodies_mut(&mut self) -> (listed: Vec<(BodyHandle, &mut Body)>)
        ensures
            forall|i: int, j: int|
                0 <= i < j < listed@.len() ==> (#[trigger] listed@[i]).0.slot().unwrap() < (
                #[trigger] listed@[j]).0.slot().unwrap(),
            forall|i: int|
                0 <= i < listed@.len() ==> {
                    &&& (#[trigger] listed@[i]).0 != BodyHandle::spec_ground()
                    &&& old(self)@.contains_key(listed@[i].0)
                    &&& *listed@[i].1 == old(self)@[listed@[i].0]
                    &&& final(self)@[listed@[i].0] == *final(listed@[i].1)
                },
            forall|h: BodyHandle| #[trigger]
                old(self)@.contains_key(h) && h != BodyHandle::spec_ground() ==> exists|i: int|
                    0 <= i < listed@.len() && (#[trigger] listed@[i]).0 == h,
            final(self)@.dom() =~= old(self)@.dom(),
            final(self)@[BodyHandle::spec_ground()] == old(self)@[BodyHandle::spec_ground()],
    {
        broadcast use {BodyHandle::lemma_slot_of_handle, BodyHandle::lemma_handle_of_slot};

        proof {
            assert(BodyHandle::spec_ground().slot() is None);
            assert forall|h: BodyHandle| #[trigger]
                self@.contains_key(h) && h != BodyHandle::spec_ground() implies slab_bodies(
                self.bodies,
            ).contains_key(h.slot().unwrap()) && h == BodyHandle::spec_indexed(
                h.slot().unwrap(),
            ) by {}
        }
        slab_entries_mut(&mut self.bodies)
    }

    /// Mutable reference to the two specified bodies.
    ///
    /// Each side is `None` if its body is not found. The two handles must
    /// differ: no two references to one body are ever handed out, and a call
    /// from unverified code with equal handles stops before it produces any.
    /// What is written through either reference becomes the body behind its
    /// handle, whatever is written through the other.
    #[inline]
    pub fn body_pair_mut(&mut self, handle1: BodyHandle, handle2: BodyHandle) -> (r: (
        Option<&mut Body>,
        Option<&mut Body>,
    ))
        requires
            handle1 != handle2,
        ensures
            r.0 is Some <==> old(self)@.contains_key(handle1),
            r.1 is Some <==> old(self)@.contains_key(handle2),
            r.0 is Some ==> *r.0.unwrap() == old(self)@[handle1],
            r.1 is Some ==> *r.1.unwrap() == old(self)@[handle2],
            r.0 is Some && r.1 is Some ==> final(self)@ =~= old(self)@.insert(
                handle1,
                *final(r.0.unwrap()),
            ).insert(handle2, *final(r.1.unwrap())),
            r.0 is Some && r.1 is None ==> final(self)@ =~= old(self)@.insert(
                handle1,
                *final(r.0.unwrap()),
            ),
            r.0 is None && r.1 is Some ==> final(self)@ =~= old(self)@.insert(
                handle2,
                *final(r.1.unwrap()),
            ),
            r.0 is None && r.1 is None ==> final(self)@ =~= old(self)@,
    {
        broadcast use {BodyHandle::lemma_slot_of_handle, BodyHandle::lemma_handle_of_slot};

        if handle1 == handle2 {
            return vstd::pervasive::unreached();
        }
        match (handle1.index(), handle2.index()) {
            (None, Some(k2)) => (Some(&mut self.ground), slab_get_mut(&mut self.bodies, k2)),
            (Some(k1), None) => (slab_get_mut(&mut self.bodies, k1), Some(&mut self.ground)),
            (Some(k1), Some(k2)) => {
                let found1 = slab_contains(&self.bodies, k1);
                let found2 = slab_contains(&self.bodies, k2);
                if found1 && found2 {
                    match slab_get2_mut(&mut self.bodies, k1, k2) {
                        Some((b1, b2)) => (Some(b1), Some(b2)),
                        None => vstd::pervasive::unreached(),
                    }
                } else if found1 {
                    (slab_get_mut(&mut self.bodies, k1), None)
                } else {
                    (None, slab_get_mut(&mut self.bodies, k2))
                }
            },
            (None, None) => vstd::pervasive::unreached(),
        }
    }
}

impl BodySet for BodySlab {
    type Body = Body;

    type Handle = BodyHandle;

    open spec fn bodies_by_handle(&self) -> Map<BodyHandle, Body> {
        self@
    }

    open spec fn visits(&self, handle: BodyHandle) -> bool {
        handle != BodyHandle::spec_ground()
    }

    fn get(&self, handle: BodyHandle) -> (r: Option<&Body>) {
        self.body(handle)
    }

    fn get_mut(&mut self, handle: BodyHandle) -> (r: Option<&mut Body>) {
        self.body_mut(handle)
    }

    fn get_pair_mut(&mut self, handle1: BodyHandle, handle2: BodyHandle) -> (r: (
        Option<&mut Body>,
        Option<&mut Body>,
    )) {
        self.body_pair_mut(handle1, handle2)
    }

    fn contains(&self, handle: BodyHandle) -> (b: bool) {
        self.contains(handle)
    }

    fn foreach<F: FnMut(BodyHandle, &Body)>(&self, mut f: F) {
        broadcast use {BodyHandle::lemma_slot_of_handle, BodyHandle::lemma_handle_of_slot};

        assert forall|h: BodyHandle|
            self@.contains_key(h) && h != BodyHandle::spec_ground() implies call_requires(
            f,
            (h, &#[trigger] self@[h]),
        ) by {
            assert(self.visits(h));
            assert(self.bodies_by_handle().contains_key(h));
            assert(self.bodies_by_handle()[h] == self@[h]);
        }
        let entries = slab_entries(&self.bodies);
        let mut i: usize = 0;
        assert(BodyHandle::spec_ground().slot() is None);
        while i < entries.len()
            invariant
                i <= entries.len(),
                BodyHandle::spec_ground().slot() is None,
                forall|k: int|
                    0 <= k < entries@.len() ==> {
                        &&& (#[trigger] entries@[k]).0.slot() is Some
                        &&& slab_bodies(self.bodies).contains_key(entries@[k].0.slot().unwrap())
                        &&& *entries@[k].1
                            == slab_bodies(self.bodies)[entries@[k].0.slot().unwrap()]
                    },
                forall|h: BodyHandle|
                    self@.contains_key(h) && h != BodyHandle::spec_ground() ==> call_requires(
                        f,
                        (h, &#[trigger] self@[h]),
                    ),
            decreases entries.len() - i,
        {
            let (h, b) = entries[i];
            assert(entries@[i as int].0.slot() is Some);
            assert(self@.contains_key(h));
            assert(*b == self@[h]);
            f(h, b);
            i += 1;
        }
    }

    fn foreach_mut<F: FnMut(BodyHandle, &mut Body)>(&mut self, mut f: F) {
        broadcast use {BodyHandle::lemma_slot_of_handle, BodyHandle::lemma_handle_of_slot};

        assert(self.bodies_by_handle() == self@);
        let keys = self.slots();
        let ghost visitor = f;
        let mut i: usize = 0;
        while i < keys.len()
            invariant
                i <= keys.len(),
                f == visitor,
                forall|a: int, b: int| 0 <= a < b < keys@.len() ==> keys@[a] < keys@[b],
                forall|k: usize|
                    keys@.contains(k) <==> slab_bodies(old(self).bodies).contains_key(k),
                slab_bodies(self.bodies).dom() =~= slab_bodies(old(self).bodies).dom(),
                self.ground == old(self).ground,
                forall|j: int|
                    i <= j < keys@.len() ==> slab_bodies(self.bodies)[#[trigger] keys@[j]]
                        == slab_bodies(old(self).bodies)[keys@[j]],
                forall|j: int|
                    0 <= j < i ==> exists|m: &mut Body|
                        *m == slab_bodies(old(self).bodies)[#[trigger] keys@[j]] && *final(m)
                            == slab_bodies(self.bodies)[keys@[j]] && call_ensures(
                            f,
                            (BodyHandle::spec_indexed(keys@[j]), m),
                            (),
                        ),
                forall|h: BodyHandle, m: &mut Body|
                    old(self)@.contains_key(h) && h != BodyHandle::spec_ground() && *m
                        == old(self)@[h] ==> #[trigger] call_requires(f, (h, m)),
            decreases keys.len() - i,
        {
            let k = keys[i];
            let h = BodyHandle::indexed(k);
            assert(keys@.contains(k));
            assert(old(self)@.contains_key(h));
            assert(old(self)@[h] == slab_bodies(old(self).bodies)[k]);
            let ghost before = slab_bodies(self.bodies);
            match slab_get_mut(&mut self.bodies, k) {
                Some(b) => {
                    f(h, b);
                },
                None => {},
            }
            assert(slab_bodies(self.bodies).dom() =~= before.dom());
            assert(exists|m: &mut Body|
                *m == slab_bodies(old(self).bodies)[k] && *final(m) == slab_bodies(self.bodies)[k]
                    && call_ensures(f, (BodyHandle::spec_indexed(k), m), ()));
            assert forall|j: int| 0 <= j < i implies exists|m: &mut Body|
                *m == slab_bodies(old(self).bodies)[#[trigger] keys@[j]] && *final(m)
                    == slab_bodies(self.bodies)[keys@[j]] && call_ensures(
                    f,
                    (BodyHandle::spec_indexed(keys@[j]), m),
                    (),
                ) by {
                assert(keys@[j] != k);
                assert(slab_bodies(self.bodies)[keys@[j]] == before[keys@[j]]);
            }
            i += 1;
        }
        proof {
            assert(self.bodies_by_handle() == self@);
            assert(self@.dom() =~= old(self)@.dom());
            assert forall|h: BodyHandle|
                old(self)@.contains_key(h) && h == BodyHandle::spec_ground() implies self@[h]
                == old(self)@[h] by {
                assert(h.slot() is None);
            }
            assert forall|h: BodyHandle|
                #[trigger] old(self).bodies_by_handle().contains_key(h) && old(self).visits(
                    h,
                ) implies exists|m: &mut Body|
                *m == old(self).bodies_by_handle()[h] && *final(m) == self.bodies_by_handle()[h]
                    && call_ensures(f, (h, m), ()) by {
                let k = h.slot().unwrap();
                assert(keys@.contains(k));
                let j = choose|j: int| 0 <= j < keys@.len() && keys@[j] == k;
                assert(keys@[j] == k);
                assert(h == BodyHandle::spec_indexed(k));
                assert(old(self)@[h] == slab_bodies(old(self).bodies)[k]);
                assert(self@[h] == slab_bodies(self.bodies)[k]);
            }
        }
    }
}

} // verus!
