//! The common shapes, grouped in one type.

use vstd::prelude::*;

verus! {

/// Enumeration grouping all common shapes. Used to simplify collision
/// detection dispatch.
///
/// The shapes themselves are the host's: `P` is its plane, `B` its ball, `C`
/// its compound and `I` its implicit shape.
pub enum DefaultGeom<P, B, C, I> {
    /// A plane.
    Plane(P),
    /// A ball.
    Ball(B),
    /// A shape made of other shapes.
    Compound(C),
    /// A shape given by its support function.
    Implicit(I),
}

impl<P, B, C, I> DefaultGeom<P, B, C, I> {
    /// Wraps a ball.
    #[inline]
    pub fn new_ball(b: B) -> (g: DefaultGeom<P, B, C, I>)
        ensures
            g == DefaultGeom::<P, B, C, I>::Ball(b),
    {
        DefaultGeom::Ball(b)
    }

    /// Wraps a plane.
    #[inline]
    pub fn new_plane(p: P) -> (g: DefaultGeom<P, B, C, I>)
        ensures
            g == DefaultGeom::<P, B, C, I>::Plane(p),
    {
        DefaultGeom::Plane(p)
    }

    /// Wraps an implicit shape.
    #[inline]
    pub fn new_implicit(i: I) -> (g: DefaultGeom<P, B, C, I>)
        ensures
            g == DefaultGeom::<P, B, C, I>::Implicit(i),
    {
        DefaultGeom::Implicit(i)
    }

    /// Wraps a compound.
    #[inline]
    pub fn new_compound(c: C) -> (g: DefaultGeom<P, B, C, I>)
        ensures
            g == DefaultGeom::<P, B, C, I>::Compound(c),
    {
        DefaultGeom::Compound(c)
    }

    /// Convenience method to extract a ball from the enumeration. The shape
    /// must be a ball.
    #[inline]
    pub fn ball(&self) -> (b: &B)
        requires
            self is Ball,
        ensures
            *b == self->Ball_0,
    {
        match self {
            DefaultGeom::Ball(b) => b,
            _ => vstd::pervasive::unreached(),
        }
    }

    /// Convenience method to extract a plane from the enumeration. The shape
    /// must be a plane.
    #[inline]
    pub fn plane(&self) -> (p: &P)
        requires
            self is Plane,
        ensures
            *p == self->Plane_0,
    {
        match self {
            DefaultGeom::Plane(p) => p,
            _ => vstd::pervasive::unreached(),
        }
    }

    /// Convenience method to extract an implicit shape from the enumeration.
    /// The shape must be an implicit shape.
    #[inline]
    pub fn implicit(&self) -> (i: &I)
        requires
            self is Implicit,
        ensures
            *i == self->Implicit_0,
    {
        match self {
            DefaultGeom::Implicit(i) => i,
            _ => vstd::pervasive::unreached(),
        }
    }

    /// Convenience method to extract a compound from the enumeration. The
    /// shape must be a compound.
    #[inline]
    pub fn compound(&self) -> (c: &C)
        requires
            self is Compound,
        ensures
            *c == self->Compound_0,
    {
        match self {
            DefaultGeom::Compound(c) => c,
            _ => vstd::pervasive::unreached(),
        }
    }
}

} // verus!
