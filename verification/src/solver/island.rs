//! Where the bodies of an island sit in the flat velocity vectors.
//!
//! The bodies of an island are laid out one after the other, in island order:
//! each gets as its companion id the number of degrees of freedom of the
//! bodies before it. A handle of the island that names no body of the set is
//! passed over.

use vstd::prelude::*;
use crate::object::body::Body;
use crate::object::body_set::BodySlab;
use crate::object::handle::BodyHandle;

verus! {

/// The degrees of freedom the solver sees behind a handle: none where the
/// handle names no body.
pub open spec fn body_dofs(bodies: Map<BodyHandle, Body>, handle: BodyHandle) -> nat {
    if bodies.contains_key(handle) {
        bodies[handle].spec_status_dependent_ndofs() as nat
    } else {
        0
    }
}

/// The degrees of freedom of all the bodies of an island together.
pub open spec fn island_dofs(bodies: Map<BodyHandle, Body>, island: Seq<BodyHandle>) -> nat
    decreases island.len(),
{
    if island.len() == 0 {
        0
    } else {
        island_dofs(bodies, island.drop_last()) + body_dofs(bodies, island.last())
    }
}

/// Whether every body of the island has degrees of freedom to solve for.
pub open spec fn island_is_dynamic(bodies: Map<BodyHandle, Body>, island: Seq<BodyHandle>) -> bool {
    forall|i: int|
        0 <= i < island.len() && bodies.contains_key(#[trigger] island[i]) ==> body_dofs(
            bodies,
            island[i],
        ) != 0
}

/// Whether two bodies differ in nothing but their companion ids.
pub open spec fn same_but_companion_id(a: Body, b: Body) -> bool {
    a == (Body { companion_id: a.companion_id, ..b })
}

/// Whether none of the first `n` handles of the island is `handle`.
pub open spec fn not_among(island: Seq<BodyHandle>, n: int, handle: BodyHandle) -> bool {
    forall|i: int| 0 <= i < n ==> island[i] != handle
}

/// Whether the `i`-th handle of the island does not occur again among its
/// first `n` handles.
pub open spec fn last_among(island: Seq<BodyHandle>, n: int, i: int) -> bool {
    forall|j: int| i < j < n ==> island[j] != island[i]
}

/// Whether `after` is `before` with the bodies of the first `n` handles of
/// the island laid out: the body behind the `i`-th handle sits at the sum of
/// the degrees of freedom of the bodies before it, and where a handle occurs
/// more than once its last occurrence decides. Nothing else differs.
pub open spec fn companion_ids_assigned(
    before: Map<BodyHandle, Body>,
    after: Map<BodyHandle, Body>,
    island: Seq<BodyHandle>,
    n: int,
) -> bool {
    &&& after.dom() == before.dom()
    &&& forall|h: BodyHandle| #[trigger]
        before.contains_key(h) ==> same_but_companion_id(after[h], before[h])
    &&& forall|h: BodyHandle|
        before.contains_key(h) && #[trigger] not_among(island, n, h) ==> after[h] == before[h]
    &&& forall|i: int|
        0 <= i < n && before.contains_key(island[i]) && #[trigger] last_among(island, n, i)
            ==> after[island[i]].companion_id == island_dofs(before, island.take(i))
}

/// Laying out one more body of an island: the body behind the `n`-th handle,
/// if there is one, goes to the sum of the degrees of freedom before it.
proof fn lemma_assign_next(
    before: Map<BodyHandle, Body>,
    laid: Map<BodyHandle, Body>,
    after: Map<BodyHandle, Body>,
    island: Seq<BodyHandle>,
    n: int,
)
    requires
        0 <= n < island.len(),
        companion_ids_assigned(before, laid, island, n),
        island_dofs(before, island.take(n)) <= usize::MAX,
        laid.contains_key(island[n]) ==> after == laid.insert(
            island[n],
            Body { companion_id: island_dofs(before, island.take(n)) as usize, ..laid[island[n]] },
        ),
        !laid.contains_key(island[n]) ==> after == laid,
    ensures
        companion_ids_assigned(before, after, island, n + 1),
{
    let next = island[n];
    assert(after.dom() =~= before.dom());
    assert forall|h: BodyHandle| #[trigger] before.contains_key(h) implies same_but_companion_id(
        after[h],
        before[h],
    ) by {
        assert(same_but_companion_id(laid[h], before[h]));
    }
    assert forall|h: BodyHandle|
        before.contains_key(h) && #[trigger] not_among(island, n + 1, h) implies after[h]
        == before[h] by {
        assert(island[n] != h);
        assert(not_among(island, n, h));
    }
    assert forall|i: int|
        0 <= i < n + 1 && before.contains_key(island[i]) && #[trigger] last_among(
            island,
            n + 1,
            i,
        ) implies after[island[i]].companion_id == island_dofs(before, island.take(i)) by {
        if i < n {
            assert(island[n] != island[i]);
            assert(last_among(island, n, i));
        }
    }
}

/// The degrees of freedom behind a handle do not depend on companion ids.
pub proof fn lemma_body_dofs_ignore_companion_ids(
    before: Map<BodyHandle, Body>,
    after: Map<BodyHandle, Body>,
    handle: BodyHandle,
)
    requires
        after.dom() == before.dom(),
        forall|h: BodyHandle| #[trigger]
            before.contains_key(h) ==> same_but_companion_id(after[h], before[h]),
    ensures
        body_dofs(after, handle) == body_dofs(before, handle),
{
    if before.contains_key(handle) {
        assert(same_but_companion_id(after[handle], before[handle]));
    }
}

/// The degrees of freedom of an island do not depend on companion ids.
pub proof fn lemma_island_dofs_ignore_companion_ids(
    before: Map<BodyHandle, Body>,
    after: Map<BodyHandle, Body>,
    island: Seq<BodyHandle>,
)
    requires
        after.dom() == before.dom(),
        forall|h: BodyHandle| #[trigger]
            before.contains_key(h) ==> same_but_companion_id(after[h], before[h]),
    ensures
        island_dofs(after, island) == island_dofs(before, island),
    decreases island.len(),
{
    if island.len() > 0 {
        lemma_island_dofs_ignore_companion_ids(before, after, island.drop_last());
        lemma_body_dofs_ignore_companion_ids(before, after, island.last());
    }
}

/// A longer prefix of an island has at least the degrees of freedom of a
/// shorter one.
pub proof fn lemma_island_dofs_grow(
    bodies: Map<BodyHandle, Body>,
    island: Seq<BodyHandle>,
    i: int,
    j: int,
)
    requires
        0 <= i <= j <= island.len(),
    ensures
        island_dofs(bodies, island.take(i)) <= island_dofs(bodies, island.take(j)),
    decreases j - i,
{
    if i < j {
        lemma_island_dofs_grow(bodies, island, i, j - 1);
        lemma_island_dofs_step(bodies, island, j - 1);
    }
}

/// Taking one more handle of an island adds the degrees of freedom behind it.
pub proof fn lemma_island_dofs_step(
    bodies: Map<BodyHandle, Body>,
    island: Seq<BodyHandle>,
    i: int,
)
    requires
        0 <= i < island.len(),
    ensures
        island_dofs(bodies, island.take(i + 1)) == island_dofs(bodies, island.take(i)) + body_dofs(
            bodies,
            island[i],
        ),
{
    assert(island.take(i + 1).drop_last() =~= island.take(i));
    assert(island.take(i + 1).last() == island[i]);
}

/// Tells whether every body of the island has degrees of freedom to solve
/// for.
pub fn check_island_is_dynamic(bodies: &BodySlab, island: &Vec<BodyHandle>) -> (ok: bool)
    ensures
        ok == island_is_dynamic(bodies@, island@),
{
    let mut i: usize = 0;
    while i < island.len()
        invariant
            i <= island.len(),
            forall|k: int|
                0 <= k < i && bodies@.contains_key(#[trigger] island@[k]) ==> body_dofs(
                    bodies@,
                    island@[k],
                ) != 0,
        decreases island.len() - i,
    {
        match bodies.body(island[i]) {
            Some(body) => {
                if body.status_dependent_ndofs() == 0 {
                    assert(bodies@.contains_key(island@[i as int]));
                    return false;
                }
            },
            None => {},
        }
        i += 1;
    }
    true
}

/// The degrees of freedom of all the bodies of an island together, `None`
/// where that number does not fit the machine's integers.
pub fn system_dofs(bodies: &BodySlab, island: &Vec<BodyHandle>) -> (total: Option<usize>)
    ensures
        total is Some <==> island_dofs(bodies@, island@) <= usize::MAX,
        total is Some ==> total.unwrap() == island_dofs(bodies@, island@),
{
    let mut sum: usize = 0;
    let mut i: usize = 0;
    while i < island.len()
        invariant
            i <= island.len(),
            sum == island_dofs(bodies@, island@.take(i as int)),
        decreases island.len() - i,
    {
        proof {
            lemma_island_dofs_step(bodies@, island@, i as int);
            lemma_island_dofs_grow(bodies@, island@, i as int + 1, island@.len() as int);
            assert(island@.take(island@.len() as int) =~= island@);
        }
        let ndofs = match bodies.body(island[i]) {
            Some(body) => body.status_dependent_ndofs(),
            None => 0,
        };
        match sum.checked_add(ndofs) {
            Some(next) => {
                sum = next;
            },
            None => {
                return None;
            },
        }
        i += 1;
    }
    assert(island@.take(island@.len() as int) =~= island@);
    Some(sum)
}

/// Lays the bodies of the island out one after the other, in island order,
/// and returns the degrees of freedom of the island. Handles that name no
/// body are passed over.
pub fn assign_companion_ids(bodies: &mut BodySlab, island: &Vec<BodyHandle>) -> (total: usize)
    requires
        island_dofs(old(bodies)@, island@) <= usize::MAX,
    ensures
        companion_ids_assigned(old(bodies)@, final(bodies)@, island@, island@.len() as int),
        total == island_dofs(old(bodies)@, island@),
{
    let mut sum: usize = 0;
    let mut i: usize = 0;
    while i < island.len()
        invariant
            i <= island.len(),
            island_dofs(old(bodies)@, island@) <= usize::MAX,
            sum == island_dofs(old(bodies)@, island@.take(i as int)),
            companion_ids_assigned(old(bodies)@, bodies@, island@, i as int),
        decreases island.len() - i,
    {
        let handle = island[i];
        let ghost laid = bodies@;
        proof {
            lemma_island_dofs_step(old(bodies)@, island@, i as int);
            lemma_island_dofs_grow(old(bodies)@, island@, i as int + 1, island@.len() as int);
            assert(island@.take(island@.len() as int) =~= island@);
            lemma_body_dofs_ignore_companion_ids(old(bodies)@, laid, handle);
        }
        match bodies.body_mut(handle) {
            Some(body) => {
                body.set_companion_id(sum);
                sum = sum + body.status_dependent_ndofs();
            },
            None => {},
        }
        proof {
            lemma_assign_next(old(bodies)@, laid, bodies@, island@, i as int);
        }
        i += 1;
    }
    assert(island@.take(island@.len() as int) =~= island@);
    sum
}

/// Whether no handle occurs twice in the island.
pub open spec fn island_is_distinct(island: Seq<BodyHandle>) -> bool {
    forall|i: int, j: int| 0 <= i < j < island.len() ==> island[i] != island[j]
}

/// The first slot of the velocity vectors that belongs to the body behind
/// the handle.
pub open spec fn range_start(bodies: Map<BodyHandle, Body>, handle: BodyHandle) -> nat {
    bodies[handle].companion_id as nat
}

/// The slot of the velocity vectors after the last that belongs to the body
/// behind the handle.
pub open spec fn range_end(bodies: Map<BodyHandle, Body>, handle: BodyHandle) -> nat {
    bodies[handle].companion_id as nat + body_dofs(bodies, handle)
}

/// Whether the slot `x` of the velocity vectors belongs to the body behind
/// the `i`-th handle of the island.
pub open spec fn owns_slot(
    bodies: Map<BodyHandle, Body>,
    island: Seq<BodyHandle>,
    i: int,
    x: nat,
) -> bool {
    &&& 0 <= i < island.len()
    &&& bodies.contains_key(island[i])
    &&& range_start(bodies, island[i]) <= x < range_end(bodies, island[i])
}

/// Whether the slot `x` of the velocity vectors belongs to a body of the
/// island.
pub open spec fn has_owner(bodies: Map<BodyHandle, Body>, island: Seq<BodyHandle>, x: nat) -> bool {
    exists|i: int| owns_slot(bodies, island, i, x)
}

/// A handle that occurs among the first `n` handles of an island has a last
/// occurrence among them.
pub proof fn lemma_last_occurrence(island: Seq<BodyHandle>, n: int, handle: BodyHandle) -> (i: int)
    requires
        0 <= n <= island.len(),
        !not_among(island, n, handle),
    ensures
        0 <= i < n,
        island[i] == handle,
        last_among(island, n, i),
    decreases n,
{
    if island[n - 1] == handle {
        n - 1
    } else {
        assert(!not_among(island, n - 1, handle));
        lemma_last_occurrence(island, n - 1, handle)
    }
}

/// A slot below the degrees of freedom of the first `n` bodies of an island
/// lies between the degrees of freedom before one of these bodies and those
/// up to it.
proof fn lemma_slot_has_owner(
    bodies: Map<BodyHandle, Body>,
    island: Seq<BodyHandle>,
    n: int,
    x: nat,
) -> (i: int)
    requires
        0 <= n <= island.len(),
        x < island_dofs(bodies, island.take(n)),
    ensures
        0 <= i < n,
        bodies.contains_key(island[i]),
        island_dofs(bodies, island.take(i)) <= x < island_dofs(bodies, island.take(i + 1)),
    decreases n,
{
    if n == 0 {
        assert(island.take(0).len() == 0);
        0
    } else {
        lemma_island_dofs_step(bodies, island, n - 1);
        if x < island_dofs(bodies, island.take(n - 1)) {
            lemma_slot_has_owner(bodies, island, n - 1, x)
        } else {
            n - 1
        }
    }
}

/// After the bodies of an island of distinct handles have been laid out,
/// their parts of the velocity vectors divide the slots from 0 up to the
/// degrees of freedom of the island: the parts follow one another in island
/// order without overlapping, none reaches past the end, and every slot
/// belongs to one of them.
pub proof fn lemma_companion_ranges_partition(
    before: Map<BodyHandle, Body>,
    after: Map<BodyHandle, Body>,
    island: Seq<BodyHandle>,
)
    requires
        island_is_distinct(island),
        companion_ids_assigned(before, after, island, island.len() as int),
    ensures
        island_dofs(after, island) == island_dofs(before, island),
        forall|i: int, j: int|
            0 <= i < j < island.len() && after.contains_key(island[i]) && after.contains_key(
                island[j],
            ) ==> #[trigger] range_end(after, island[i]) <= #[trigger] range_start(
                after,
                island[j],
            ),
        forall|i: int|
            0 <= i < island.len() && after.contains_key(island[i]) ==> #[trigger] range_end(
                after,
                island[i],
            ) <= island_dofs(after, island),
        forall|x: nat| x < island_dofs(after, island) ==> #[trigger] has_owner(after, island, x),
{
    let n = island.len() as int;
    lemma_island_dofs_ignore_companion_ids(before, after, island);
    assert(island.take(n) =~= island);
    assert forall|i: int| 0 <= i < n && after.contains_key(island[i]) implies range_start(
        after,
        #[trigger] island[i],
    ) == island_dofs(before, island.take(i)) && range_end(after, island[i]) == island_dofs(
        before,
        island.take(i + 1),
    ) by {
        assert(last_among(island, n, i));
        lemma_island_dofs_step(before, island, i);
        lemma_body_dofs_ignore_companion_ids(before, after, island[i]);
    }
    assert forall|i: int, j: int|
        0 <= i < j < n && after.contains_key(island[i]) && after.contains_key(
            island[j],
        ) implies #[trigger] range_end(after, island[i]) <= #[trigger] range_start(
        after,
        island[j],
    ) by {
        lemma_island_dofs_grow(before, island, i + 1, j);
    }
    assert forall|i: int| 0 <= i < n && after.contains_key(island[i]) implies #[trigger] range_end(
        after,
        island[i],
    ) <= island_dofs(after, island) by {
        lemma_island_dofs_grow(before, island, i + 1, n);
    }
    assert forall|x: nat| x < island_dofs(after, island) implies #[trigger] has_owner(
        after,
        island,
        x,
    ) by {
        let i = lemma_slot_has_owner(before, island, n, x);
        assert(owns_slot(after, island, i, x));
    }
}

/// Laying out the bodies of an island a second time changes nothing.
pub proof fn lemma_assignment_is_idempotent(
    before: Map<BodyHandle, Body>,
    once: Map<BodyHandle, Body>,
    twice: Map<BodyHandle, Body>,
    island: Seq<BodyHandle>,
)
    requires
        companion_ids_assigned(before, once, island, island.len() as int),
        companion_ids_assigned(once, twice, island, island.len() as int),
    ensures
        twice == once,
{
    let n = island.len() as int;
    assert forall|h: BodyHandle| once.contains_key(h) implies twice[h] == once[h] by {
        assert(before.contains_key(h));
        if not_among(island, n, h) {
        } else {
            let i = lemma_last_occurrence(island, n, h);
            lemma_island_dofs_ignore_companion_ids(before, once, island.take(i));
            assert(same_but_companion_id(twice[h], once[h]));
            assert(once[island[i]].companion_id == island_dofs(before, island.take(i)));
            assert(twice[island[i]].companion_id == island_dofs(once, island.take(i)));
        }
    }
    assert(twice =~= once);
}

/// After the bodies of an island have been laid out, the part of the
/// velocity vectors of each of them ends within the degrees of freedom of
/// the island, whether or not a handle occurs twice.
pub proof fn lemma_range_within_system(
    before: Map<BodyHandle, Body>,
    after: Map<BodyHandle, Body>,
    island: Seq<BodyHandle>,
    j: int,
)
    requires
        companion_ids_assigned(before, after, island, island.len() as int),
        0 <= j < island.len(),
        after.contains_key(island[j]),
    ensures
        range_end(after, island[j]) <= island_dofs(after, island),
{
    let n = island.len() as int;
    let h = island[j];
    assert(!not_among(island, n, h));
    let i = lemma_last_occurrence(island, n, h);
    lemma_island_dofs_ignore_companion_ids(before, after, island);
    lemma_body_dofs_ignore_companion_ids(before, after, h);
    lemma_island_dofs_step(before, island, i);
    lemma_island_dofs_grow(before, island, i + 1, n);
    assert(island.take(n) =~= island);
    assert(after[island[i]].companion_id == island_dofs(before, island.take(i)));
}

} // verus!
