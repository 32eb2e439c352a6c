//! Axis-aligned integer bounding rectangles over tile grids.

use vstd::prelude::*;
use vstd::arithmetic::div_mod::lemma_fundamental_div_mod;
use vstd::arithmetic::div_mod::lemma_fundamental_div_mod_converse;
use vstd::arithmetic::div_mod::lemma_mod_pos_bound;
use vstd::arithmetic::mul::lemma_mul_inequality;
use vstd::seq_lib::group_seq_lib_default;

use crate::geom::Vector2I;

verus! {

/// The largest coordinate magnitude accepted on rectangle corners; it keeps
/// every rectangle size and corner sum within the 32-bit signed range.
pub const COORD_LIMIT: i32 = 0x3fff_ffff;

/// Whether a coordinate is small enough for rectangle arithmetic.
pub open spec fn coord_ok(c: int) -> bool {
    -COORD_LIMIT <= c <= COORD_LIMIT
}

/// Whether both coordinates of a grid position are small enough for
/// rectangle arithmetic.
pub open spec fn vec_ok(v: Vector2I) -> bool {
    coord_ok(v.x as int) && coord_ok(v.y as int)
}

/// A non-empty axis-aligned rectangle of grid cells, stored as its
/// bottom-left corner and its positive size.
#[derive(Clone, Copy, Debug)]
pub struct TileRect {
    position: Vector2I,
    size: Vector2I,
}

impl TileRect {
    #[verifier::type_invariant]
    closed spec fn inv(&self) -> bool {
        &&& 1 <= self.size.x
        &&& 1 <= self.size.y
        &&& coord_ok(self.position.x as int)
        &&& coord_ok(self.position.y as int)
        &&& coord_ok(self.position.x + self.size.x - 1)
        &&& coord_ok(self.position.y + self.size.y - 1)
    }

    /// The smallest x coordinate of any cell in the rectangle.
    pub closed spec fn left(&self) -> int {
        self.position.x as int
    }

    /// The smallest y coordinate of any cell in the rectangle.
    pub closed spec fn bottom(&self) -> int {
        self.position.y as int
    }

    /// The number of cells along the x axis.
    pub closed spec fn width(&self) -> int {
        self.size.x as int
    }

    /// The number of cells along the y axis.
    pub closed spec fn height(&self) -> int {
        self.size.y as int
    }

    /// The largest x coordinate of any cell in the rectangle.
    pub open spec fn right(&self) -> int {
        self.left() + self.width() - 1
    }

    /// The largest y coordinate of any cell in the rectangle.
    pub open spec fn top(&self) -> int {
        self.bottom() + self.height() - 1
    }

    /// Whether a cell lies in the rectangle.
    pub open spec fn contains_spec(&self, p: Vector2I) -> bool {
        self.left() <= p.x <= self.right() && self.bottom() <= p.y <= self.top()
    }

    /// The set of cells in the rectangle.
    pub open spec fn cells(&self) -> Set<Vector2I> {
        Set::new(|p: Vector2I| self.contains_spec(p))
    }

    /// Bring into scope the size and coordinate bounds that every
    /// rectangle maintains; erased at run time.
    pub fn observe(&self)
        ensures
            1 <= self.width(),
            1 <= self.height(),
            coord_ok(self.left()),
            coord_ok(self.bottom()),
            coord_ok(self.right()),
            coord_ok(self.top()),
    {
        proof {
            use_type_invariant(self);
        }
    }

    /// The rectangle holding exactly the cells between two corner points,
    /// in whatever quadrant order they are given.
    pub fn from_points(a: Vector2I, b: Vector2I) -> (r: TileRect)
        requires
            vec_ok(a),
            vec_ok(b),
        ensures
            r.left() == if a.x <= b.x { a.x as int } else { b.x as int },
            r.bottom() == if a.y <= b.y { a.y as int } else { b.y as int },
            r.right() == if a.x <= b.x { b.x as int } else { a.x as int },
            r.top() == if a.y <= b.y { b.y as int } else { a.y as int },
    {
        let x0 = if a.x <= b.x { a.x } else { b.x };
        let x1 = if a.x <= b.x { b.x } else { a.x };
        let y0 = if a.y <= b.y { a.y } else { b.y };
        let y1 = if a.y <= b.y { b.y } else { a.y };
        TileRect {
            position: Vector2I { x: x0, y: y0 },
            size: Vector2I { x: x1 - x0 + 1, y: y1 - y0 + 1 },
        }
    }

    /// The bottom-left corner.
    pub fn position(&self) -> (r: Vector2I)
        ensures
            r.x == self.left(),
            r.y == self.bottom(),
    {
        self.position
    }

    /// The size of the rectangle along both axes.
    pub fn size(&self) -> (r: Vector2I)
        ensures
            r.x == self.width(),
            r.y == self.height(),
    {
        self.size
    }

    /// The corner with the smallest coordinates.
    pub fn left_bottom_corner(&self) -> (r: Vector2I)
        ensures
            r.x == self.left(),
            r.y == self.bottom(),
    {
        self.position
    }

    /// The corner with the smallest x and largest y coordinate.
    pub fn left_top_corner(&self) -> (r: Vector2I)
        ensures
            r.x == self.left(),
            r.y == self.top(),
    {
        proof {
            use_type_invariant(self);
        }
        Vector2I { x: self.position.x, y: self.position.y + self.size.y - 1 }
    }

    /// The corner with the largest x and smallest y coordinate.
    pub fn right_bottom_corner(&self) -> (r: Vector2I)
        ensures
            r.x == self.right(),
            r.y == self.bottom(),
    {
        proof {
            use_type_invariant(self);
        }
        Vector2I { x: self.position.x + self.size.x - 1, y: self.position.y }
    }

    /// The corner with the largest coordinates.
    pub fn right_top_corner(&self) -> (r: Vector2I)
        ensures
            r.x == self.right(),
            r.y == self.top(),
    {
        proof {
            use_type_invariant(self);
        }
        Vector2I {
            x: self.position.x + self.size.x - 1,
            y: self.position.y + self.size.y - 1,
        }
    }

    /// The cell at the middle of the rectangle, rounding towards the top
    /// right on even sizes.
    pub fn center(&self) -> (r: Vector2I)
        ensures
            r.x == self.left() + self.width() / 2,
            r.y == self.bottom() + self.height() / 2,
    {
        proof {
            use_type_invariant(self);
        }
        Vector2I { x: self.position.x + self.size.x / 2, y: self.position.y + self.size.y / 2 }
    }

    /// Whether a cell lies in the rectangle.
    pub fn contains(&self, p: Vector2I) -> (r: bool)
        ensures
            r == self.contains_spec(p),
    {
        proof {
            use_type_invariant(self);
        }
        self.position.x <= p.x && p.x <= self.position.x + self.size.x - 1 && self.position.y
            <= p.y && p.y <= self.position.y + self.size.y - 1
    }

    /// The cells of the rectangle listed row by row.
    pub open spec fn cell_seq(&self) -> Seq<Vector2I> {
        Seq::new(
            (self.width() * self.height()) as nat,
            |i: int|
                Vector2I {
                    x: (self.left() + i % self.width()) as i32,
                    y: (self.bottom() + i / self.width()) as i32,
                },
        )
    }

    /// The cell set of a rectangle is finite and no larger than the
    /// rectangle's area.
    pub proof fn lemma_cells_finite(&self)
        requires
            1 <= self.width(),
            1 <= self.height(),
            coord_ok(self.left()),
            coord_ok(self.bottom()),
            coord_ok(self.right()),
            coord_ok(self.top()),
        ensures
            self.cells().finite(),
            self.cells().len() <= self.width() * self.height(),
    {
        broadcast use group_seq_lib_default;

        let w = self.width();
        let h = self.height();
        let s = self.cell_seq();
        assert(w * h >= 1) by {
            lemma_mul_inequality(1, h, w);
        }
        assert forall|p: Vector2I| self.cells().contains(p) implies s.to_set().contains(p) by {
            let i = (p.x - self.left()) + (p.y - self.bottom()) * w;
            lemma_fundamental_div_mod_converse(i, w, p.y - self.bottom(), p.x - self.left());
            assert(i < w * h) by {
                lemma_mul_inequality(p.y - self.bottom() + 1, h, w);
                assert((p.y - self.bottom() + 1) * w == (p.y - self.bottom()) * w + w)
                    by (nonlinear_arith);
                vstd::arithmetic::mul::lemma_mul_is_commutative(h, w);
            }
            assert(s[i] == p);
        }
        assert forall|p: Vector2I| s.to_set().contains(p) implies self.cells().contains(p) by {
            let i = choose|i: int| 0 <= i < s.len() && s[i] == p;
            lemma_mod_pos_bound(i, w);
            lemma_fundamental_div_mod(i, w);
            assert(i / w < h) by {
                if i / w >= h {
                    lemma_mul_inequality(h, i / w, w);
                }
            }
            assert(0 <= i / w) by {
                if i / w < 0 {
                    lemma_mul_inequality(i / w + 1, 0, w);
                }
            }
        }
        assert(self.cells() =~= s.to_set());
        s.lemma_cardinality_of_set();
    }

    /// Rectangles with the same corners are the same rectangle.
    pub proof fn lemma_rect_eq(a: TileRect, b: TileRect)
        requires
            a.left() == b.left(),
            a.bottom() == b.bottom(),
            a.right() == b.right(),
            a.top() == b.top(),
        ensures
            a == b,
    {
    }

    /// Shrink the rectangle by the given margins on every side; the result
    /// is empty when nothing remains.
    pub fn deflate(&self, dw: i32, dh: i32) -> (r: OptionTileRect)
        requires
            0 <= dw <= COORD_LIMIT,
            0 <= dh <= COORD_LIMIT,
        ensures
            (r@ is Some) <==> (self.width() - 2 * dw >= 1 && self.height() - 2 * dh >= 1),
            r@ is Some ==> {
                let d = r@->Some_0;
                &&& d.left() == self.left() + dw
                &&& d.bottom() == self.bottom() + dh
                &&& d.right() == self.right() - dw
                &&& d.top() == self.top() - dh
            },
    {
        proof {
            use_type_invariant(self);
        }
        let w2: i64 = self.size.x as i64 - 2 * (dw as i64);
        let h2: i64 = self.size.y as i64 - 2 * (dh as i64);
        if w2 >= 1 && h2 >= 1 {
            OptionTileRect(
                Some(
                    TileRect {
                        position: Vector2I { x: self.position.x + dw, y: self.position.y + dh },
                        size: Vector2I { x: w2 as i32, y: h2 as i32 },
                    },
                ),
            )
        } else {
            OptionTileRect(None)
        }
    }
}

/// Whether `q` lies in the box spanned by the two corner points `a` and
/// `b`, in whatever quadrant order they are given.
pub open spec fn between_spec(a: Vector2I, b: Vector2I, q: Vector2I) -> bool {
    &&& vstd::math::min(a.x as int, b.x as int) <= q.x <= vstd::math::max(a.x as int, b.x as int)
    &&& vstd::math::min(a.y as int, b.y as int) <= q.y <= vstd::math::max(a.y as int, b.y as int)
}

/// A possibly absent rectangle: the empty set of cells, or a non-empty
/// rectangle.
#[derive(Clone, Copy, Debug)]
pub struct OptionTileRect(pub Option<TileRect>);

impl View for OptionTileRect {
    type V = Option<TileRect>;

    open spec fn view(&self) -> Option<TileRect> {
        self.0
    }
}

impl Default for OptionTileRect {
    /// The empty rectangle.
    fn default() -> (r: Self)
        ensures
            r@ is None,
    {
        OptionTileRect(None)
    }
}

impl OptionTileRect {
    /// Whether a cell lies in the rectangle.
    pub open spec fn contains_spec(&self, p: Vector2I) -> bool {
        match self@ {
            Some(r) => r.contains_spec(p),
            None => false,
        }
    }

    /// The empty rectangle.
    pub fn new_empty() -> (r: Self)
        ensures
            r@ is None,
    {
        OptionTileRect(None)
    }

    /// The rectangle holding exactly the cells between two corner points.
    pub fn from_points(a: Vector2I, b: Vector2I) -> (r: Self)
        requires
            vec_ok(a),
            vec_ok(b),
        ensures
            r@ is Some,
            r@->Some_0.left() == if a.x <= b.x { a.x as int } else { b.x as int },
            r@->Some_0.bottom() == if a.y <= b.y { a.y as int } else { b.y as int },
            r@->Some_0.right() == if a.x <= b.x { b.x as int } else { a.x as int },
            r@->Some_0.top() == if a.y <= b.y { b.y as int } else { a.y as int },
    {
        OptionTileRect(Some(TileRect::from_points(a, b)))
    }

    /// Whether the rectangle holds no cell.
    pub fn is_empty(&self) -> (r: bool)
        ensures
            r == (self@ is None),
    {
        self.0.is_none()
    }

    /// Whether a cell lies in the rectangle.
    pub fn contains(&self, p: Vector2I) -> (r: bool)
        ensures
            r == self.contains_spec(p),
    {
        match &self.0 {
            Some(rect) => rect.contains(p),
            None => false,
        }
    }

    /// Grow the rectangle by the least amount that makes it include the
    /// given cell.
    pub fn push(&mut self, p: Vector2I)
        requires
            vec_ok(p),
        ensures
            final(self)@ is Some,
            ({
                let n = final(self)@->Some_0;
                match old(self)@ {
                    None => n.left() == p.x && n.right() == p.x && n.bottom() == p.y && n.top()
                        == p.y,
                    Some(o) => n.left() == vstd::math::min(o.left(), p.x as int) && n.right()
                        == vstd::math::max(o.right(), p.x as int) && n.bottom() == vstd::math::min(
                        o.bottom(),
                        p.y as int,
                    ) && n.top() == vstd::math::max(o.top(), p.y as int),
                }
            }),
    {
        match &self.0 {
            None => {
                self.0 = Some(
                    TileRect { position: p, size: Vector2I { x: 1, y: 1 } },
                );
            }
            Some(rect) => {
                proof {
                    use_type_invariant(rect);
                }
                let x0 = if p.x < rect.position.x {
                    p.x
                } else {
                    rect.position.x
                };
                let y0 = if p.y < rect.position.y {
                    p.y
                } else {
                    rect.position.y
                };
                let old_right = rect.position.x + rect.size.x - 1;
                let old_top = rect.position.y + rect.size.y - 1;
                let x1 = if p.x > old_right {
                    p.x
                } else {
                    old_right
                };
                let y1 = if p.y > old_top {
                    p.y
                } else {
                    old_top
                };
                self.0 = Some(
                    TileRect {
                        position: Vector2I { x: x0, y: y0 },
                        size: Vector2I { x: x1 - x0 + 1, y: y1 - y0 + 1 },
                    },
                );
            }
        }
    }

    /// Shrink the rectangle by the given margins on every side.
    pub fn deflate(&self, dw: i32, dh: i32) -> (r: OptionTileRect)
        requires
            0 <= dw <= COORD_LIMIT,
            0 <= dh <= COORD_LIMIT,
        ensures
            self@ is None ==> r@ is None,
            self@ is Some ==> {
                let o = self@->Some_0;
                &&& (r@ is Some) <==> (o.width() - 2 * dw >= 1 && o.height() - 2 * dh >= 1)
                &&& r@ is Some ==> {
                    let d = r@->Some_0;
                    &&& d.left() == o.left() + dw
                    &&& d.bottom() == o.bottom() + dh
                    &&& d.right() == o.right() - dw
                    &&& d.top() == o.top() - dh
                }
            },
    {
        match &self.0 {
            Some(rect) => rect.deflate(dw, dh),
            None => OptionTileRect(None),
        }
    }
}

} // verus!
