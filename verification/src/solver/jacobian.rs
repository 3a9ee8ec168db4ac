//! How the jacobian buffer is divided among the constraint rows.
//!
//! The buffer has two zones: first the rows that couple two bodies which both
//! have degrees of freedom, then the rows in which one side has none. Every
//! row of a constraint between two bodies takes twice the degrees of freedom
//! of the two bodies together. The rows follow one another in the order of
//! their constraints, each zone on its own.

use vstd::prelude::*;
use crate::object::body::Body;
use crate::object::body_set::BodySlab;
use crate::object::handle::BodyHandle;
use crate::solver::island::{body_dofs, lemma_body_dofs_ignore_companion_ids, same_but_companion_id};

verus! {

/// A constraint between two bodies, as the layout sees it.
#[derive(Copy, Clone, Debug, PartialEq, Eq, Structural)]
pub struct Coupling {
    /// Identifies the constraint among those of its kind.
    pub id: usize,
    /// The first body the constraint acts on.
    pub body1: BodyHandle,
    /// The second body the constraint acts on.
    pub body2: BodyHandle,
    /// The number of velocity rows the constraint contributes.
    pub num_velocity_constraints: usize,
    /// Whether the constraint takes part in the step.
    pub active: bool,
}

/// Whether the constraint contributes rows: it is active and both its bodies
/// are in the set.
pub open spec fn contributes(bodies: Map<BodyHandle, Body>, c: Coupling) -> bool {
    c.active && bodies.contains_key(c.body1) && bodies.contains_key(c.body2)
}

/// Whether one side of the constraint has no degrees of freedom.
pub open spec fn is_ground_coupled(bodies: Map<BodyHandle, Body>, c: Coupling) -> bool {
    body_dofs(bodies, c.body1) == 0 || body_dofs(bodies, c.body2) == 0
}

/// The number of buffer slots one row of the constraint takes.
pub open spec fn row_width(bodies: Map<BodyHandle, Body>, c: Coupling) -> nat {
    2 * (body_dofs(bodies, c.body1) + body_dofs(bodies, c.body2))
}

/// The number of buffer slots all the rows of the constraint take.
pub open spec fn block_size(bodies: Map<BodyHandle, Body>, c: Coupling) -> nat {
    if contributes(bodies, c) {
        c.num_velocity_constraints as nat * row_width(bodies, c)
    } else {
        0
    }
}

/// The slots the constraint takes in the zone of the rows between two bodies
/// with degrees of freedom.
pub open spec fn paired_block(bodies: Map<BodyHandle, Body>, c: Coupling) -> nat {
    if is_ground_coupled(bodies, c) {
        0
    } else {
        block_size(bodies, c)
    }
}

/// The slots the constraint takes in the zone of the rows in which one side
/// has no degrees of freedom.
pub open spec fn ground_block(bodies: Map<BodyHandle, Body>, c: Coupling) -> nat {
    if is_ground_coupled(bodies, c) {
        block_size(bodies, c)
    } else {
        0
    }
}

/// The size of the zone of the rows between two bodies with degrees of
/// freedom.
pub open spec fn paired_size(bodies: Map<BodyHandle, Body>, cs: Seq<Coupling>) -> nat
    decreases cs.len(),
{
    if cs.len() == 0 {
        0
    } else {
        paired_size(bodies, cs.drop_last()) + paired_block(bodies, cs.last())
    }
}

/// The size of the zone of the rows in which one side has no degrees of
/// freedom.
pub open spec fn ground_size(bodies: Map<BodyHandle, Body>, cs: Seq<Coupling>) -> nat
    decreases cs.len(),
{
    if cs.len() == 0 {
        0
    } else {
        ground_size(bodies, cs.drop_last()) + ground_block(bodies, cs.last())
    }
}

/// The size of the whole buffer.
pub open spec fn jacobian_size(bodies: Map<BodyHandle, Body>, cs: Seq<Coupling>) -> nat {
    paired_size(bodies, cs) + ground_size(bodies, cs)
}

/// One more constraint adds its block to the zone it belongs to.
pub proof fn lemma_sizes_step(bodies: Map<BodyHandle, Body>, cs: Seq<Coupling>, i: int)
    requires
        0 <= i < cs.len(),
    ensures
        paired_size(bodies, cs.take(i + 1)) == paired_size(bodies, cs.take(i)) + paired_block(
            bodies,
            cs[i],
        ),
        ground_size(bodies, cs.take(i + 1)) == ground_size(bodies, cs.take(i)) + ground_block(
            bodies,
            cs[i],
        ),
{
    assert(cs.take(i + 1).drop_last() =~= cs.take(i));
    assert(cs.take(i + 1).last() == cs[i]);
}

/// The zones of more constraints are at least as large.
pub proof fn lemma_sizes_grow(bodies: Map<BodyHandle, Body>, cs: Seq<Coupling>, i: int, j: int)
    requires
        0 <= i <= j <= cs.len(),
    ensures
        paired_size(bodies, cs.take(i)) <= paired_size(bodies, cs.take(j)),
        ground_size(bodies, cs.take(i)) <= ground_size(bodies, cs.take(j)),
    decreases j - i,
{
    if i < j {
        lemma_sizes_grow(bodies, cs, i, j - 1);
        lemma_sizes_step(bodies, cs, j - 1);
    }
}

/// What the layout reads of a constraint and its two bodies.
#[derive(Copy, Clone, Debug, PartialEq, Eq, Structural)]
pub struct Block {
    /// Whether the constraint contributes rows.
    pub contributes: bool,
    /// Whether one side of the constraint has no degrees of freedom.
    pub ground: bool,
    /// The degrees of freedom of the first body.
    pub ndofs1: usize,
    /// The degrees of freedom of the second body.
    pub ndofs2: usize,
    /// The companion id of the first body.
    pub assembly_id1: usize,
    /// The companion id of the second body.
    pub assembly_id2: usize,
    /// The number of buffer slots all the rows of the constraint take.
    pub size: usize,
}

/// The block of a constraint, given by what the set holds of its two bodies.
pub open spec fn block_of(bodies: Map<BodyHandle, Body>, c: Coupling) -> Block {
    Block {
        contributes: contributes(bodies, c),
        ground: is_ground_coupled(bodies, c),
        ndofs1: body_dofs(bodies, c.body1) as usize,
        ndofs2: body_dofs(bodies, c.body2) as usize,
        assembly_id1: if bodies.contains_key(c.body1) {
            bodies[c.body1].companion_id
        } else {
            0
        },
        assembly_id2: if bodies.contains_key(c.body2) {
            bodies[c.body2].companion_id
        } else {
            0
        },
        size: block_size(bodies, c) as usize,
    }
}

/// A product of naturals is at least each factor the other of which is not 0.
proof fn lemma_product_bounds(rows: nat, width: nat)
    ensures
        rows >= 1 ==> rows * width >= width,
        rows == 0 ==> rows * width == 0,
        rows * width >= 0,
{
    assert(rows >= 1 ==> rows * width >= width) by (nonlinear_arith);
    assert(rows == 0 ==> rows * width == 0) by (nonlinear_arith);
}

/// Reads the block of a constraint, `None` where its size does not fit the
/// machine's integers.
pub fn read_block(bodies: &BodySlab, c: &Coupling) -> (block: Option<Block>)
    ensures
        block is Some <==> block_size(bodies@, *c) <= usize::MAX,
        block is Some ==> block.unwrap() == block_of(bodies@, *c),
{
    let (found1, ndofs1, id1) = match bodies.body(c.body1) {
        Some(b) => (true, b.status_dependent_ndofs(), b.companion_id()),
        None => (false, 0, 0),
    };
    let (found2, ndofs2, id2) = match bodies.body(c.body2) {
        Some(b) => (true, b.status_dependent_ndofs(), b.companion_id()),
        None => (false, 0, 0),
    };
    let contributes = c.active && found1 && found2;
    let ground = ndofs1 == 0 || ndofs2 == 0;
    proof {
        lemma_product_bounds(c.num_velocity_constraints as nat, row_width(bodies@, *c));
    }
    let size: usize = if !contributes || c.num_velocity_constraints == 0 {
        0
    } else {
        let both = match ndofs1.checked_add(ndofs2) {
            Some(both) => both,
            None => {
                return None;
            },
        };
        let width = match both.checked_mul(2) {
            Some(width) => width,
            None => {
                return None;
            },
        };
        match c.num_velocity_constraints.checked_mul(width) {
            Some(size) => size,
            None => {
                return None;
            },
        }
    };
    Some(
        Block {
            contributes,
            ground,
            ndofs1,
            ndofs2,
            assembly_id1: id1,
            assembly_id2: id2,
            size,
        },
    )
}

/// The sizes of the two zones of the buffer, `None` where the buffer does
/// not fit the machine's integers.
pub fn jacobian_sizes(bodies: &BodySlab, couplings: &Vec<Coupling>) -> (sizes: Option<
    (usize, usize),
>)
    ensures
        sizes is Some <==> jacobian_size(bodies@, couplings@) <= usize::MAX,
        sizes is Some ==> sizes.unwrap().0 == paired_size(bodies@, couplings@),
        sizes is Some ==> sizes.unwrap().1 == ground_size(bodies@, couplings@),
{
    let mut paired: usize = 0;
    let mut ground: usize = 0;
    let mut i: usize = 0;
    while i < couplings.len()
        invariant
            i <= couplings.len(),
            paired == paired_size(bodies@, couplings@.take(i as int)),
            ground == ground_size(bodies@, couplings@.take(i as int)),
            paired + ground <= usize::MAX,
        decreases couplings.len() - i,
    {
        proof {
            lemma_sizes_step(bodies@, couplings@, i as int);
            lemma_sizes_grow(bodies@, couplings@, i as int + 1, couplings@.len() as int);
            assert(couplings@.take(couplings@.len() as int) =~= couplings@);
        }
        let block = match read_block(bodies, &couplings[i]) {
            Some(block) => block,
            None => {
                return None;
            },
        };
        let total = paired + ground;
        if block.size > usize::MAX - total {
            return None;
        }
        if block.ground {
            ground = ground + block.size;
        } else {
            paired = paired + block.size;
        }
        i += 1;
    }
    assert(couplings@.take(couplings@.len() as int) =~= couplings@);
    Some((paired, ground))
}

/// One velocity row of a constraint: the bodies it couples and the region
/// of the jacobian buffer it is written to.
#[derive(Copy, Clone, Debug, PartialEq, Eq, Structural)]
pub struct ConstraintRow {
    /// Identifies the constraint of the row among those of its kind.
    pub id: usize,
    /// The index of the row among the rows of its constraint.
    pub row: usize,
    /// The companion id of the first body.
    pub assembly_id1: usize,
    /// The companion id of the second body.
    pub assembly_id2: usize,
    /// The degrees of freedom of the first body.
    pub ndofs1: usize,
    /// The degrees of freedom of the second body.
    pub ndofs2: usize,
    /// The first slot of the row's region of the jacobian buffer.
    pub j_id: usize,
    /// Whether the row lies in the zone of the rows in which one side has no
    /// degrees of freedom.
    pub ground: bool,
}

impl ConstraintRow {
    /// The number of buffer slots of the row's region.
    pub open spec fn width(&self) -> nat {
        2 * (self.ndofs1 as nat + self.ndofs2 as nat)
    }

    /// The slot after the last of the row's region.
    pub open spec fn end(&self) -> nat {
        self.j_id as nat + self.width()
    }
}

/// The `r`-th row of a constraint whose block starts at `offset`.
pub open spec fn row_at(
    bodies: Map<BodyHandle, Body>,
    c: Coupling,
    offset: nat,
    r: int,
) -> ConstraintRow {
    let block = block_of(bodies, c);
    ConstraintRow {
        id: c.id,
        row: r as usize,
        assembly_id1: block.assembly_id1,
        assembly_id2: block.assembly_id2,
        ndofs1: block.ndofs1,
        ndofs2: block.ndofs2,
        j_id: (offset + r * row_width(bodies, c)) as usize,
        ground: block.ground,
    }
}

/// The rows of a constraint whose block starts at `offset`: none where the
/// constraint does not contribute.
pub open spec fn block_rows(bodies: Map<BodyHandle, Body>, c: Coupling, offset: nat) -> Seq<
    ConstraintRow,
> {
    if contributes(bodies, c) {
        Seq::new(c.num_velocity_constraints as nat, |r: int| row_at(bodies, c, offset, r))
    } else {
        Seq::empty()
    }
}

/// Where the block of the last of the constraints starts, the zones starting
/// at `paired_base` and `ground_base`.
pub open spec fn last_block_offset(
    bodies: Map<BodyHandle, Body>,
    cs: Seq<Coupling>,
    paired_base: nat,
    ground_base: nat,
) -> nat
    recommends
        cs.len() > 0,
{
    if is_ground_coupled(bodies, cs.last()) {
        ground_base + ground_size(bodies, cs.drop_last())
    } else {
        paired_base + paired_size(bodies, cs.drop_last())
    }
}

/// The rows of the constraints, in the order of the constraints, the zones
/// starting at `paired_base` and `ground_base`.
pub open spec fn constraint_rows(
    bodies: Map<BodyHandle, Body>,
    cs: Seq<Coupling>,
    paired_base: nat,
    ground_base: nat,
) -> Seq<ConstraintRow>
    decreases cs.len(),
{
    if cs.len() == 0 {
        Seq::empty()
    } else {
        constraint_rows(bodies, cs.drop_last(), paired_base, ground_base) + block_rows(
            bodies,
            cs.last(),
            last_block_offset(bodies, cs, paired_base, ground_base),
        )
    }
}

/// One more constraint adds its rows after those of the constraints before.
pub proof fn lemma_rows_step(
    bodies: Map<BodyHandle, Body>,
    cs: Seq<Coupling>,
    paired_base: nat,
    ground_base: nat,
    i: int,
)
    requires
        0 <= i < cs.len(),
    ensures
        constraint_rows(bodies, cs.take(i + 1), paired_base, ground_base) == constraint_rows(
            bodies,
            cs.take(i),
            paired_base,
            ground_base,
        ) + block_rows(
            bodies,
            cs[i],
            if is_ground_coupled(bodies, cs[i]) {
                ground_base + ground_size(bodies, cs.take(i))
            } else {
                paired_base + paired_size(bodies, cs.take(i))
            },
        ),
{
    assert(cs.take(i + 1).drop_last() =~= cs.take(i));
    assert(cs.take(i + 1).last() == cs[i]);
}

/// Writes down the rows of the constraints, in the order of the constraints,
/// the zones starting at `paired_base` and `ground_base`.
pub fn layout_rows(
    bodies: &BodySlab,
    couplings: &Vec<Coupling>,
    paired_base: usize,
    ground_base: usize,
) -> (rows: Vec<ConstraintRow>)
    requires
        paired_base + paired_size(bodies@, couplings@) <= usize::MAX,
        ground_base + ground_size(bodies@, couplings@) <= usize::MAX,
    ensures
        rows@ == constraint_rows(bodies@, couplings@, paired_base as nat, ground_base as nat),
{
    let mut rows: Vec<ConstraintRow> = Vec::new();
    let mut paired: usize = paired_base;
    let mut ground: usize = ground_base;
    let mut i: usize = 0;
    while i < couplings.len()
        invariant
            i <= couplings.len(),
            paired_base + paired_size(bodies@, couplings@) <= usize::MAX,
            ground_base + ground_size(bodies@, couplings@) <= usize::MAX,
            paired == paired_base + paired_size(bodies@, couplings@.take(i as int)),
            ground == ground_base + ground_size(bodies@, couplings@.take(i as int)),
            rows@ == constraint_rows(
                bodies@,
                couplings@.take(i as int),
                paired_base as nat,
                ground_base as nat,
            ),
        decreases couplings.len() - i,
    {
        let c = couplings[i];
        proof {
            lemma_sizes_step(bodies@, couplings@, i as int);
            lemma_sizes_grow(bodies@, couplings@, i as int + 1, couplings@.len() as int);
            assert(couplings@.take(couplings@.len() as int) =~= couplings@);
            lemma_rows_step(bodies@, couplings@, paired_base as nat, ground_base as nat, i as int);
        }
        let block = match read_block(bodies, &c) {
            Some(block) => block,
            None => {
                proof {
                    assert(block_size(bodies@, c) == paired_block(bodies@, c) + ground_block(
                        bodies@,
                        c,
                    ));
                }
                return rows;
            },
        };
        let offset: usize = if block.ground {
            ground
        } else {
            paired
        };
        if block.contributes {
            let ghost done = rows@;
            let ghost width = row_width(bodies@, c);
            let mut cursor: usize = offset;
            let mut r: usize = 0;
            while r < c.num_velocity_constraints
                invariant
                    r <= c.num_velocity_constraints,
                    contributes(bodies@, c),
                    block == block_of(bodies@, c),
                    width == row_width(bodies@, c),
                    offset + c.num_velocity_constraints * width <= usize::MAX,
                    cursor == offset + r * width,
                    rows@ == done + block_rows(bodies@, c, offset as nat).take(r as int),
                decreases c.num_velocity_constraints - r,
            {
                proof {
                    assert(offset + (r + 1) * width <= offset + c.num_velocity_constraints * width)
                        by (nonlinear_arith)
                        requires
                            r + 1 <= c.num_velocity_constraints,
                            width >= 0,
                    ;
                    assert((r + 1) * width == r * width + width) by (nonlinear_arith);
                    lemma_product_bounds(c.num_velocity_constraints as nat, width);
                }
                rows.push(
                    ConstraintRow {
                        id: c.id,
                        row: r,
                        assembly_id1: block.assembly_id1,
                        assembly_id2: block.assembly_id2,
                        ndofs1: block.ndofs1,
                        ndofs2: block.ndofs2,
                        j_id: cursor,
                        ground: block.ground,
                    },
                );
                proof {
                    let all = block_rows(bodies@, c, offset as nat);
                    assert(all.take(r as int + 1) =~= all.take(r as int).push(all[r as int]));
                    assert(rows@ =~= done + all.take(r as int + 1));
                }
                cursor = cursor + 2 * (block.ndofs1 + block.ndofs2);
                r += 1;
            }
            proof {
                let all = block_rows(bodies@, c, offset as nat);
                assert(all.take(c.num_velocity_constraints as int) =~= all);
            }
        } else {
            assert(rows@ + block_rows(bodies@, c, offset as nat) =~= rows@);
        }
        if block.ground {
            ground = ground + block.size;
        } else {
            paired = paired + block.size;
        }
        i += 1;
    }
    assert(couplings@.take(couplings@.len() as int) =~= couplings@);
    rows
}

/// Whether the zones, starting at `paired_base` and `ground_base`, end
/// within the machine's integers.
pub open spec fn zones_fit(
    bodies: Map<BodyHandle, Body>,
    cs: Seq<Coupling>,
    paired_base: nat,
    ground_base: nat,
) -> bool {
    &&& paired_base + paired_size(bodies, cs) <= usize::MAX
    &&& ground_base + ground_size(bodies, cs) <= usize::MAX
}

/// The `r`-th row of a block takes the slots from `offset + r * width` on,
/// and ends where the next row of the block starts.
proof fn lemma_block_row(bodies: Map<BodyHandle, Body>, c: Coupling, offset: nat, r: int)
    requires
        contributes(bodies, c),
        0 <= r < c.num_velocity_constraints,
        offset + block_size(bodies, c) <= usize::MAX,
    ensures
        row_at(bodies, c, offset, r).ground == is_ground_coupled(bodies, c),
        row_at(bodies, c, offset, r).width() == row_width(bodies, c),
        row_at(bodies, c, offset, r).j_id == offset + r * row_width(bodies, c),
        row_at(bodies, c, offset, r).end() == offset + (r + 1) * row_width(bodies, c),
        row_at(bodies, c, offset, r).end() <= offset + block_size(bodies, c),
{
    let width = row_width(bodies, c);
    let rows = c.num_velocity_constraints as nat;
    assert((r + 1) * width == r * width + width) by (nonlinear_arith);
    assert((r + 1) * width <= rows * width) by (nonlinear_arith)
        requires
            r + 1 <= rows,
            width >= 0,
    ;
    assert(r * width >= 0) by (nonlinear_arith)
        requires
            r >= 0,
            width >= 0,
    ;
}

/// Every row lies in its zone: a row between two bodies with degrees of
/// freedom between `paired_base` and the end of that zone, a row in which one
/// side has none between `ground_base` and the end of that zone.
pub proof fn lemma_row_within_zone(
    bodies: Map<BodyHandle, Body>,
    cs: Seq<Coupling>,
    paired_base: nat,
    ground_base: nat,
    k: int,
)
    requires
        zones_fit(bodies, cs, paired_base, ground_base),
        0 <= k < constraint_rows(bodies, cs, paired_base, ground_base).len(),
    ensures
        ({
            let row = constraint_rows(bodies, cs, paired_base, ground_base)[k];
            if row.ground {
                ground_base <= row.j_id && row.end() <= ground_base + ground_size(bodies, cs)
            } else {
                paired_base <= row.j_id && row.end() <= paired_base + paired_size(bodies, cs)
            }
        }),
    decreases cs.len(),
{
    if cs.len() > 0 {
        let before = constraint_rows(bodies, cs.drop_last(), paired_base, ground_base);
        let c = cs.last();
        let offset = last_block_offset(bodies, cs, paired_base, ground_base);
        if k < before.len() {
            lemma_row_within_zone(bodies, cs.drop_last(), paired_base, ground_base, k);
        } else {
            let r = k - before.len();
            assert(constraint_rows(bodies, cs, paired_base, ground_base)[k] == row_at(
                bodies,
                c,
                offset,
                r,
            ));
            lemma_block_row(bodies, c, offset, r);
        }
    }
}

/// The rows of a zone follow one another: of two rows of the same zone, the
/// earlier ends before the later starts.
pub proof fn lemma_rows_in_order(
    bodies: Map<BodyHandle, Body>,
    cs: Seq<Coupling>,
    paired_base: nat,
    ground_base: nat,
    a: int,
    b: int,
)
    requires
        zones_fit(bodies, cs, paired_base, ground_base),
        0 <= a < b < constraint_rows(bodies, cs, paired_base, ground_base).len(),
        constraint_rows(bodies, cs, paired_base, ground_base)[a].ground == constraint_rows(
            bodies,
            cs,
            paired_base,
            ground_base,
        )[b].ground,
    ensures
        constraint_rows(bodies, cs, paired_base, ground_base)[a].end() <= constraint_rows(
            bodies,
            cs,
            paired_base,
            ground_base,
        )[b].j_id,
    decreases cs.len(),
{
    if cs.len() > 0 {
        let before = constraint_rows(bodies, cs.drop_last(), paired_base, ground_base);
        let c = cs.last();
        let offset = last_block_offset(bodies, cs, paired_base, ground_base);
        let all = constraint_rows(bodies, cs, paired_base, ground_base);
        if b < before.len() {
            lemma_rows_in_order(bodies, cs.drop_last(), paired_base, ground_base, a, b);
        } else {
            let rb = b - before.len();
            assert(all[b] == row_at(bodies, c, offset, rb));
            lemma_block_row(bodies, c, offset, rb);
            if a < before.len() {
                assert(all[a] == before[a]);
                lemma_row_within_zone(bodies, cs.drop_last(), paired_base, ground_base, a);
                assert(rb * row_width(bodies, c) >= 0) by (nonlinear_arith)
                    requires
                        rb >= 0,
                        row_width(bodies, c) >= 0,
                ;
            } else {
                let ra = a - before.len();
                assert(all[a] == row_at(bodies, c, offset, ra));
                lemma_block_row(bodies, c, offset, ra);
                assert((ra + 1) * row_width(bodies, c) <= rb * row_width(bodies, c))
                    by (nonlinear_arith)
                    requires
                        ra + 1 <= rb,
                        row_width(bodies, c) >= 0,
                ;
            }
        }
    }
}

/// The rows of a buffer: the zone of the rows between two bodies with
/// degrees of freedom starts the buffer, the other zone follows it.
pub open spec fn buffer_rows(bodies: Map<BodyHandle, Body>, cs: Seq<Coupling>) -> Seq<
    ConstraintRow,
> {
    constraint_rows(bodies, cs, 0, paired_size(bodies, cs))
}

/// Every row of a buffer lies within the buffer, and on its side of the
/// boundary between the two zones.
pub proof fn lemma_row_within_buffer(bodies: Map<BodyHandle, Body>, cs: Seq<Coupling>, k: int)
    requires
        jacobian_size(bodies, cs) <= usize::MAX,
        0 <= k < buffer_rows(bodies, cs).len(),
    ensures
        buffer_rows(bodies, cs)[k].end() <= jacobian_size(bodies, cs),
        buffer_rows(bodies, cs)[k].ground ==> paired_size(bodies, cs) <= buffer_rows(
            bodies,
            cs,
        )[k].j_id,
        !buffer_rows(bodies, cs)[k].ground ==> buffer_rows(bodies, cs)[k].end() <= paired_size(
            bodies,
            cs,
        ),
{
    lemma_row_within_zone(bodies, cs, 0, paired_size(bodies, cs), k);
}

/// No two rows of a buffer overlap: of two different rows, one ends before
/// the other starts.
pub proof fn lemma_rows_do_not_overlap(
    bodies: Map<BodyHandle, Body>,
    cs: Seq<Coupling>,
    a: int,
    b: int,
)
    requires
        jacobian_size(bodies, cs) <= usize::MAX,
        0 <= a < buffer_rows(bodies, cs).len(),
        0 <= b < buffer_rows(bodies, cs).len(),
        a != b,
    ensures
        buffer_rows(bodies, cs)[a].end() <= buffer_rows(bodies, cs)[b].j_id || buffer_rows(
            bodies,
            cs,
        )[b].end() <= buffer_rows(bodies, cs)[a].j_id,
{
    let paired = paired_size(bodies, cs);
    let rows = buffer_rows(bodies, cs);
    lemma_row_within_zone(bodies, cs, 0, paired, a);
    lemma_row_within_zone(bodies, cs, 0, paired, b);
    if rows[a].ground == rows[b].ground {
        if a < b {
            lemma_rows_in_order(bodies, cs, 0, paired, a, b);
        } else {
            lemma_rows_in_order(bodies, cs, 0, paired, b, a);
        }
    }
}

/// The zones of two runs of constraints, one after the other, are as large
/// as the zones of the two runs together.
pub proof fn lemma_sizes_concat(bodies: Map<BodyHandle, Body>, a: Seq<Coupling>, b: Seq<Coupling>)
    ensures
        paired_size(bodies, a + b) == paired_size(bodies, a) + paired_size(bodies, b),
        ground_size(bodies, a + b) == ground_size(bodies, a) + ground_size(bodies, b),
    decreases b.len(),
{
    if b.len() == 0 {
        assert(a + b =~= a);
    } else {
        assert((a + b).drop_last() =~= a + b.drop_last());
        assert((a + b).last() == b.last());
        lemma_sizes_concat(bodies, a, b.drop_last());
    }
}

/// The rows of two runs of constraints, one after the other: those of the
/// first run, then those of the second, laid out from where the zones of the
/// first run end.
pub proof fn lemma_rows_concat(
    bodies: Map<BodyHandle, Body>,
    a: Seq<Coupling>,
    b: Seq<Coupling>,
    paired_base: nat,
    ground_base: nat,
)
    ensures
        constraint_rows(bodies, a + b, paired_base, ground_base) == constraint_rows(
            bodies,
            a,
            paired_base,
            ground_base,
        ) + constraint_rows(
            bodies,
            b,
            paired_base + paired_size(bodies, a),
            ground_base + ground_size(bodies, a),
        ),
    decreases b.len(),
{
    let first = constraint_rows(bodies, a, paired_base, ground_base);
    if b.len() == 0 {
        assert(a + b =~= a);
        assert(first + Seq::<ConstraintRow>::empty() =~= first);
    } else {
        assert((a + b).drop_last() =~= a + b.drop_last());
        assert((a + b).last() == b.last());
        lemma_rows_concat(bodies, a, b.drop_last(), paired_base, ground_base);
        lemma_sizes_concat(bodies, a, b.drop_last());
        let second = constraint_rows(
            bodies,
            b.drop_last(),
            paired_base + paired_size(bodies, a),
            ground_base + ground_size(bodies, a),
        );
        let block = block_rows(
            bodies,
            b.last(),
            last_block_offset(bodies, a + b, paired_base, ground_base),
        );
        assert((first + second) + block =~= first + (second + block));
    }
}

/// The sizes of the zones do not depend on companion ids.
pub proof fn lemma_sizes_ignore_companion_ids(
    before: Map<BodyHandle, Body>,
    after: Map<BodyHandle, Body>,
    cs: Seq<Coupling>,
)
    requires
        after.dom() == before.dom(),
        forall|h: BodyHandle| #[trigger]
            before.contains_key(h) ==> same_but_companion_id(after[h], before[h]),
    ensures
        paired_size(after, cs) == paired_size(before, cs),
        ground_size(after, cs) == ground_size(before, cs),
    decreases cs.len(),
{
    if cs.len() > 0 {
        lemma_sizes_ignore_companion_ids(before, after, cs.drop_last());
        lemma_body_dofs_ignore_companion_ids(before, after, cs.last().body1);
        lemma_body_dofs_ignore_companion_ids(before, after, cs.last().body2);
    }
}

} // verus!
