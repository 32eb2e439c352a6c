//! The eight orthogonal transformations of the square grid: quarter-turn
//! rotations optionally composed with a horizontal flip.

use vstd::prelude::*;

use crate::geom::Vector2I;

verus! {

/// Rotate an integer point counter-clockwise by `n` quarter turns.
pub open spec fn rot_point(n: int, p: (int, int)) -> (int, int) {
    let q = n % 4;
    if q == 0 {
        p
    } else if q == 1 {
        (-p.1, p.0)
    } else if q == 2 {
        (-p.0, -p.1)
    } else {
        (p.1, -p.0)
    }
}

/// Flip an integer point along the x axis.
pub open spec fn x_flip_point(p: (int, int)) -> (int, int) {
    (-p.0, p.1)
}

/// An orthogonal transformation: a counter-clockwise rotation by a number
/// of quarter turns, followed by an optional flip along the x axis.
#[derive(Clone, Copy, PartialEq, Eq, Structural, Hash, Debug)]
pub struct OrthoTransformation {
    x_flip: bool,
    rotation: u8,
}

impl OrthoTransformation {
    #[verifier::type_invariant]
    closed spec fn inv(&self) -> bool {
        self.rotation < 4
    }

    /// Whether the transformation flips along the x axis after rotating.
    pub closed spec fn flip_spec(&self) -> bool {
        self.x_flip
    }

    /// The number of counter-clockwise quarter turns, between 0 and 3.
    pub closed spec fn rotation_spec(&self) -> int {
        self.rotation as int
    }

    /// What the transformation does to an integer point: rotate, then flip.
    pub open spec fn apply_spec(&self, p: (int, int)) -> (int, int) {
        let q = rot_point(self.rotation_spec(), p);
        if self.flip_spec() {
            x_flip_point(q)
        } else {
            q
        }
    }

    /// The identity transformation, as a spec value.
    pub closed spec fn identity_spec() -> Self {
        OrthoTransformation { x_flip: false, rotation: 0 }
    }

    /// The identity transformation.
    pub fn identity() -> (r: Self)
        ensures
            r == Self::identity_spec(),
            !r.flip_spec(),
            r.rotation_spec() == 0,
            forall|p: (int, int)| r.apply_spec(p) == p,
    {
        OrthoTransformation { x_flip: false, rotation: 0 }
    }

    /// Rotate by the given number of quarter turns, counter-clockwise for
    /// positive amounts: the result first applies this transformation and
    /// then the extra rotation.
    pub fn rotated(self, amount: i8) -> (r: Self)
        ensures
            r.flip_spec() == self.flip_spec(),
            forall|p: (int, int)| #[trigger] r.apply_spec(p) == rot_point(
                amount as int,
                self.apply_spec(p),
            ),
    {
        proof {
            use_type_invariant(&self);
        }
        let a: i32 = ((amount as i32 % 4) + 4) % 4;
        let rot: u8 = if self.x_flip {
            (((self.rotation as i32 + 4) - a) % 4) as u8
        } else {
            ((self.rotation as i32 + a) % 4) as u8
        };
        let r = OrthoTransformation { x_flip: self.x_flip, rotation: rot };
        proof {
            assert(a == ((amount as int) % 4 + 4) % 4);
            assert((amount as int) % 4 == a % 4);
            assert forall|p: (int, int)| #[trigger] r.apply_spec(p) == rot_point(
                amount as int,
                self.apply_spec(p),
            ) by {
                assert(rot_point(amount as int, self.apply_spec(p)) == rot_point(
                    a as int,
                    self.apply_spec(p),
                ));
            }
        }
        r
    }

    /// Flip along the x axis, applied after this transformation.
    pub fn x_flipped(self) -> (r: Self)
        ensures
            forall|p: (int, int)| #[trigger] r.apply_spec(p) == x_flip_point(self.apply_spec(p)),
    {
        proof {
            use_type_invariant(&self);
        }
        OrthoTransformation { x_flip: !self.x_flip, rotation: self.rotation }
    }

    /// Flip along the y axis, applied after this transformation.
    pub fn y_flipped(self) -> (r: Self)
        ensures
            forall|p: (int, int)| #[trigger] r.apply_spec(p) == (
                self.apply_spec(p).0,
                -self.apply_spec(p).1,
            ),
    {
        proof {
            use_type_invariant(&self);
        }
        let rot: u8 = ((self.rotation + 2) % 4) as u8;
        OrthoTransformation { x_flip: !self.x_flip, rotation: rot }
    }

    /// Decide whether two transformations are equal.
    pub fn same_as(&self, other: &Self) -> (r: bool)
        ensures
            r <==> (*self == *other),
    {
        self.x_flip == other.x_flip && self.rotation == other.rotation
    }

    /// Applying a transformation to two points gives equal results only on
    /// equal points.
    pub proof fn lemma_apply_injective(&self, p: (int, int), q: (int, int))
        requires
            self.apply_spec(p) == self.apply_spec(q),
        ensures
            p == q,
    {
    }

    /// Apply the transformation to a grid position.
    pub fn apply_to(&self, v: Vector2I) -> (r: Vector2I)
        requires
            -0x7fff_ffff <= v.x,
            -0x7fff_ffff <= v.y,
        ensures
            (r.x as int, r.y as int) == self.apply_spec((v.x as int, v.y as int)),
    {
        proof {
            use_type_invariant(self);
        }
        let q: Vector2I = if self.rotation == 0 {
            v
        } else if self.rotation == 1 {
            Vector2I { x: -v.y, y: v.x }
        } else if self.rotation == 2 {
            Vector2I { x: -v.x, y: -v.y }
        } else {
            Vector2I { x: v.y, y: -v.x }
        };
        if self.x_flip {
            Vector2I { x: -q.x, y: q.y }
        } else {
            q
        }
    }
}

} // verus!
