//! Producers of tile handles: the polymorphic sources that parameterize
//! every drawing operation, and the stamp that holds the user's selection.

use vstd::prelude::*;

use crate::geom::Vector2I;
use crate::grid_map::GridMap;
use crate::handle::TileDefinitionHandle;
use crate::rect::coord_ok;
use crate::rect::vec_ok;
use crate::rect::OptionTileRect;
use crate::rect::COORD_LIMIT;
use crate::transform::OrthoTransformation;

verus! {

/// A 2D grid that contains tile data.
pub type TileGridMap<V> = GridMap<Vector2I, V>;

/// Whether both coordinates of a position are small enough for a stamp
/// key: a stamp key added to a drawing origin stays in the rectangle
/// coordinate range.
pub open spec fn vec_small(v: Vector2I) -> bool {
    -0x1fff_ffff <= v.x <= 0x1fff_ffff && -0x1fff_ffff <= v.y <= 0x1fff_ffff
}

/// Whether both coordinates of a position are small enough for a stamp
/// selection: such a position survives recentering around the selection's
/// bounding-box center.
pub open spec fn vec_tiny(v: Vector2I) -> bool {
    -0x0fff_ffff <= v.x <= 0x0fff_ffff && -0x0fff_ffff <= v.y <= 0x0fff_ffff
}

/// A region of tiles to be filled from some source of tiles.
#[derive(Clone, Copy, Debug)]
pub struct TileRegion {
    /// The position to put the (0,0) tile of the tile source. If `origin`
    /// is not within `bounds` then the (0,0) tile will not actually be used.
    pub origin: Vector2I,
    /// The area to fill.
    pub bounds: OptionTileRect,
}

impl Default for TileRegion {
    /// An empty region with the origin at (0,0).
    fn default() -> (r: Self)
        ensures
            r.origin == (Vector2I { x: 0, y: 0 }),
            r.bounds@ is None,
    {
        TileRegion { origin: Vector2I { x: 0, y: 0 }, bounds: OptionTileRect(None) }
    }
}

impl TileRegion {
    /// Construct a region with its origin in one of the four corners of the
    /// given bounds. The corner of the origin is based on the given
    /// direction: positive direction components select the top right.
    pub fn from_bounds_and_direction(bounds: OptionTileRect, direction: Vector2I) -> (r: Self)
        ensures
            r.bounds@ == bounds@,
            match bounds@ {
                None => r.origin == (Vector2I { x: 0, y: 0 }),
                Some(b) => {
                    &&& r.origin.x == if direction.x <= 0 {
                        b.left()
                    } else {
                        b.right()
                    }
                    &&& r.origin.y == if direction.y <= 0 {
                        b.bottom()
                    } else {
                        b.top()
                    }
                },
            },
    {
        let b = match &bounds.0 {
            None => {
                return TileRegion { origin: Vector2I { x: 0, y: 0 }, bounds: OptionTileRect(None) };
            }
            Some(b) => b,
        };
        let x0 = if direction.x <= 0 {
            b.left_bottom_corner().x
        } else {
            b.right_top_corner().x
        };
        let y0 = if direction.y <= 0 {
            b.left_bottom_corner().y
        } else {
            b.right_top_corner().y
        };
        TileRegion { origin: Vector2I { x: x0, y: y0 }, bounds }
    }

    /// Construct a region with `bounds` that contain `origin` and `end`.
    pub fn from_points(origin: Vector2I, end: Vector2I) -> (r: Self)
        requires
            vec_ok(origin),
            vec_ok(end),
        ensures
            r.origin == origin,
            r.bounds@ is Some,
            r.bounds@->Some_0.left() == vstd::math::min(origin.x as int, end.x as int),
            r.bounds@->Some_0.right() == vstd::math::max(origin.x as int, end.x as int),
            r.bounds@->Some_0.bottom() == vstd::math::min(origin.y as int, end.y as int),
            r.bounds@->Some_0.top() == vstd::math::max(origin.y as int, end.y as int),
    {
        TileRegion { origin, bounds: OptionTileRect::from_points(origin, end) }
    }

    /// Replace the bounds of the region, keeping its origin.
    pub fn with_bounds(self, bounds: OptionTileRect) -> (r: Self)
        ensures
            r.origin == self.origin,
            r.bounds@ == bounds@,
    {
        TileRegion { origin: self.origin, bounds }
    }

    /// The `(target, source)` pairs of the region, row by row: `target` is
    /// the position to put a tile and `source` is the position to get the
    /// tile from within the tile source. Every position within `bounds`
    /// appears once as the `target`; if `origin` is within `bounds`, then
    /// `(origin, (0,0))` is among the pairs.
    pub fn iter(&self) -> (r: Vec<(Vector2I, Vector2I)>)
        requires
            vec_ok(self.origin),
        ensures
            match self.bounds@ {
                None => r@.len() == 0,
                Some(b) => {
                    &&& r@.len() == b.width() * b.height()
                    &&& forall|k: int|
                        0 <= k < r@.len() ==> (#[trigger] r@[k]).0 == b.cell_seq()[k] && r@[k].1
                            == crate::source::shifted(r@[k].0, self.origin)
                },
            },
    {
        let mut r: Vec<(Vector2I, Vector2I)> = Vec::new();
        let b = match &self.bounds.0 {
            None => {
                return r;
            }
            Some(b) => b,
        };
        b.observe();
        let pos = b.position();
        let size = b.size();
        let left = pos.x;
        let bottom = pos.y;
        let w = size.x;
        let h = size.y;
        proof {
            vstd::arithmetic::mul::lemma_mul_inequality(1, h as int, w as int);
        }
        let mut y = bottom;
        while y <= bottom + h - 1
            invariant
                vec_ok(self.origin),
                self.bounds@ is Some,
                b == self.bounds@->Some_0,
                left == b.left() && bottom == b.bottom() && w == b.width() && h == b.height(),
                1 <= w && 1 <= h,
                coord_ok(b.left()) && coord_ok(b.right()) && coord_ok(b.bottom()) && coord_ok(
                    b.top(),
                ),
                bottom <= y <= bottom + h,
                r@.len() == (y - bottom) * w,
                r@.len() <= w * h,
                forall|k: int|
                    0 <= k < r@.len() ==> (#[trigger] r@[k]).0 == b.cell_seq()[k] && r@[k].1
                        == crate::source::shifted(r@[k].0, self.origin),
            decreases bottom + h - y,
        {
            let mut x = left;
            proof {
                assert((y - bottom) * w + w <= w * h) by (nonlinear_arith)
                    requires
                        bottom <= y <= bottom + h - 1,
                        1 <= w,
                ;
            }
            while x <= left + w - 1
                invariant
                    vec_ok(self.origin),
                    self.bounds@ is Some,
                    b == self.bounds@->Some_0,
                    left == b.left() && bottom == b.bottom() && w == b.width() && h
                        == b.height(),
                    1 <= w && 1 <= h,
                    coord_ok(b.left()) && coord_ok(b.right()) && coord_ok(b.bottom()) && coord_ok(
                        b.top(),
                    ),
                    bottom <= y <= bottom + h - 1,
                    left <= x <= left + w,
                    r@.len() == (y - bottom) * w + (x - left),
                    (y - bottom) * w + w <= w * h,
                    forall|k: int|
                        0 <= k < r@.len() ==> (#[trigger] r@[k]).0 == b.cell_seq()[k] && r@[k].1
                            == crate::source::shifted(r@[k].0, self.origin),
                decreases left + w - x,
            {
                let target = Vector2I { x, y };
                let source = Vector2I { x: x - self.origin.x, y: y - self.origin.y };
                proof {
                    let k = r@.len() as int;
                    vstd::arithmetic::div_mod::lemma_fundamental_div_mod_converse(
                        k,
                        w as int,
                        y - bottom,
                        x - left,
                    );
                    assert(b.cell_seq()[k] == target);
                    assert(source == crate::source::shifted(target, self.origin));
                }
                r.push((target, source));
                x = x + 1;
            }
            proof {
                assert((y + 1 - bottom) * w == (y - bottom) * w + w) by (nonlinear_arith);
            }
            y = y + 1;
        }
        proof {
            assert((bottom + h - bottom) * w == h * w) by (nonlinear_arith);
            vstd::arithmetic::mul::lemma_mul_is_commutative(h as int, w as int);
        }
        r
    }

    /// Reduce the size of `bounds` by deflating them by the given amounts.
    pub fn deflate(self, dw: i32, dh: i32) -> (r: Self)
        requires
            0 <= dw <= COORD_LIMIT,
            0 <= dh <= COORD_LIMIT,
        ensures
            r.origin == self.origin,
            self.bounds@ is None ==> r.bounds@ is None,
            self.bounds@ is Some ==> {
                let o = self.bounds@->Some_0;
                &&& (r.bounds@ is Some) <==> (o.width() - 2 * dw >= 1 && o.height() - 2 * dh >= 1)
                &&& r.bounds@ is Some ==> {
                    let d = r.bounds@->Some_0;
                    &&& d.left() == o.left() + dw
                    &&& d.bottom() == o.bottom() + dh
                    &&& d.right() == o.right() - dw
                    &&& d.top() == o.top() - dh
                }
            },
    {
        TileRegion { origin: self.origin, bounds: self.bounds.deflate(dw, dh) }
    }
}

/// A trait for types that can produce a [`TileDefinitionHandle`] upon
/// demand, for use with drawing on tile maps. A source may be
/// deterministic (a single tile, a stamp, a repeating region) or sample at
/// random; its `valid_at` relation says which results it may produce.
pub trait TileSource {
    /// Whether the source is in a state fit to be queried.
    spec fn wf(&self) -> bool;

    /// The transformation carried by the source.
    spec fn transform_spec(&self) -> OrthoTransformation;

    /// The results that `get_at` may return at a relative position.
    spec fn valid_at(&self, position: Vector2I, result: Option<TileDefinitionHandle>) -> bool;

    /// The transformation that should be applied to the tiles before they
    /// are written.
    fn transformation(&self) -> (t: OrthoTransformation)
        ensures
            t == self.transform_spec(),
    ;

    /// Produce a tile definition handle for the given position. If an area
    /// of multiple tiles is being filled, then the given position
    /// represents where the tile will go within the area.
    fn get_at(&self, position: Vector2I) -> (r: Option<TileDefinitionHandle>)
        requires
            self.wf(),
        ensures
            self.valid_at(position, r),
    ;
}

/// Relies on `rand::random_range`: a uniform sample from a non-empty
/// index range, always below the bound.
#[verifier::external_body]
fn random_index(len: usize) -> (r: usize)
    requires
        len >= 1,
    ensures
        r < len,
{
    rand::random_range(0..len)
}

/// Whether `r` is the tight bounding rectangle of the set of positions
/// `dom`: empty exactly when `dom` is, and otherwise the smallest
/// rectangle containing every position of `dom`.
pub open spec fn is_bounding_rect_of(dom: Set<Vector2I>, r: Option<crate::rect::TileRect>) -> bool {
    match r {
        None => dom == Set::<Vector2I>::empty(),
        Some(b) => {
            &&& forall|k: Vector2I| #[trigger] dom.contains(k) ==> b.contains_spec(k)
            &&& exists|k: Vector2I| #[trigger] dom.contains(k) && k.x == b.left()
            &&& exists|k: Vector2I| #[trigger] dom.contains(k) && k.x == b.right()
            &&& exists|k: Vector2I| #[trigger] dom.contains(k) && k.y == b.bottom()
            &&& exists|k: Vector2I| #[trigger] dom.contains(k) && k.y == b.top()
        },
    }
}

/// The tight bounding rectangle of the keys of a grid map whose keys are
/// all within the rectangle coordinate range.
pub fn bounding_rect_of<V>(m: &GridMap<Vector2I, V>) -> (r: OptionTileRect)
    requires
        forall|j: int| 0 <= j < m.entries_view().len() ==> vec_ok((#[trigger] m.entries_view()[j]).0),
    ensures
        is_bounding_rect_of(m@.dom(), r@),
{
    m.observe();
    let n = m.len();
    let mut result = OptionTileRect(None);
    let mut i: usize = 0;
    while i < n
        invariant
            i <= n,
            n == m.entries_view().len(),
            forall|j: int| 0 <= j < n ==> vec_ok((#[trigger] m.entries_view()[j]).0),
            forall|j: int| 0 <= j < n ==> m@.contains_key((#[trigger] m.entries_view()[j]).0),
            (result@ is Some) <==> i > 0,
            forall|j: int|
                0 <= j < i ==> result.contains_spec((#[trigger] m.entries_view()[j]).0),
            result@ is Some ==> {
                let b = result@->Some_0;
                &&& (exists|j: int|
                    0 <= j < i && (#[trigger] m.entries_view()[j]).0.x == b.left())
                &&& (exists|j: int|
                    0 <= j < i && (#[trigger] m.entries_view()[j]).0.x == b.right())
                &&& (exists|j: int|
                    0 <= j < i && (#[trigger] m.entries_view()[j]).0.y == b.bottom())
                &&& (exists|j: int|
                    0 <= j < i && (#[trigger] m.entries_view()[j]).0.y == b.top())
            },
        decreases n - i,
    {
        let e = m.entry_at(i);
        result.push(e.0);
        i = i + 1;
    }
    proof {
        if n == 0 {
            assert(m@.dom() =~= Set::<Vector2I>::empty());
        } else {
            let s = m.entries_view();
            assert forall|k: Vector2I| #[trigger] m@.dom().contains(k) implies result@->Some_0.contains_spec(
                k,
            ) by {
                let j = choose|j: int| 0 <= j < s.len() && (#[trigger] s[j]).0 == k;
            }
            let b = result@->Some_0;
            let jl = choose|j: int| 0 <= j < n && (#[trigger] s[j]).0.x == b.left();
            assert(m@.dom().contains(s[jl].0) && s[jl].0.x == b.left());
            let jr = choose|j: int| 0 <= j < n && (#[trigger] s[j]).0.x == b.right();
            assert(m@.dom().contains(s[jr].0) && s[jr].0.x == b.right());
            let jb = choose|j: int| 0 <= j < n && (#[trigger] s[j]).0.y == b.bottom();
            assert(m@.dom().contains(s[jb].0) && s[jb].0.y == b.bottom());
            let jt = choose|j: int| 0 <= j < n && (#[trigger] s[j]).0.y == b.top();
            assert(m@.dom().contains(s[jt].0) && s[jt].0.y == b.top());
        }
    }
    result
}

/// A tile source that always produces the same tile.
#[derive(Clone, Copy, Debug)]
pub struct SingleTileSource(pub OrthoTransformation, pub TileDefinitionHandle);

impl TileSource for SingleTileSource {
    open spec fn wf(&self) -> bool {
        true
    }

    open spec fn transform_spec(&self) -> OrthoTransformation {
        self.0
    }

    open spec fn valid_at(&self, position: Vector2I, result: Option<TileDefinitionHandle>) -> bool {
        result == Some(self.1)
    }

    fn transformation(&self) -> (t: OrthoTransformation) {
        self.0
    }

    fn get_at(&self, _position: Vector2I) -> (r: Option<TileDefinitionHandle>) {
        Some(self.1)
    }
}

/// A set of tiles.
pub struct Tiles {
    tiles: TileGridMap<TileDefinitionHandle>,
}

impl View for Tiles {
    type V = Map<Vector2I, TileDefinitionHandle>;

    closed spec fn view(&self) -> Map<Vector2I, TileDefinitionHandle> {
        self.tiles@
    }
}

impl Tiles {
    #[verifier::type_invariant]
    closed spec fn inv(&self) -> bool {
        forall|i: int|
            0 <= i < self.tiles.entries_view().len() ==> vec_ok(
                (#[trigger] self.tiles.entries_view()[i]).0,
            )
    }

    /// The stored entries, in their (arbitrary) storage order.
    pub closed spec fn entries_view(&self) -> Seq<(Vector2I, TileDefinitionHandle)> {
        self.tiles.entries_view()
    }

    /// Bring into scope the facts that entries have distinct, bounded keys
    /// and describe the map; erased at run time.
    pub fn observe(&self)
        ensures
            crate::grid_map::distinct_keys(self.entries_view()),
            forall|i: int|
                0 <= i < self.entries_view().len() ==> vec_ok((#[trigger] self.entries_view()[i]).0)
                    && self@.contains_key(self.entries_view()[i].0) && self@[self.entries_view()[i].0]
                    == self.entries_view()[i].1,
            forall|k: Vector2I|
                #[trigger] self@.contains_key(k) ==> vec_ok(k) && exists|i: int|
                    0 <= i < self.entries_view().len() && (#[trigger] self.entries_view()[i]).0 == k,
    {
        proof {
            use_type_invariant(&*self);
        }
        self.tiles.observe();
    }

    /// Construct an empty tile set.
    pub fn new() -> (r: Self)
        ensures
            r@ == Map::<Vector2I, TileDefinitionHandle>::empty(),
    {
        Tiles { tiles: GridMap::new() }
    }

    /// The number of tiles.
    pub fn len(&self) -> (n: usize)
        ensures
            n == self.entries_view().len(),
    {
        self.tiles.len()
    }

    /// Whether the container holds no tile.
    pub fn is_empty(&self) -> (r: bool)
        ensures
            r <==> self@ == Map::<Vector2I, TileDefinitionHandle>::empty(),
    {
        self.tiles.is_empty()
    }

    /// The entry stored at a storage index.
    pub fn entry_at(&self, i: usize) -> (r: (Vector2I, TileDefinitionHandle))
        requires
            i < self.entries_view().len(),
        ensures
            r == self.entries_view()[i as int],
            self@.contains_key(r.0),
            self@[r.0] == r.1,
    {
        let e = self.tiles.entry_at(i);
        (e.0, *e.1)
    }

    /// Store a tile at a position, returning the tile previously stored
    /// there, if any.
    pub fn insert(&mut self, position: Vector2I, handle: TileDefinitionHandle) -> (prev: Option<
        TileDefinitionHandle,
    >)
        requires
            vec_ok(position),
        ensures
            final(self)@ == old(self)@.insert(position, handle),
            prev == (if old(self)@.contains_key(position) {
                Some(old(self)@[position])
            } else {
                None::<TileDefinitionHandle>
            }),
    {
        proof {
            use_type_invariant(&*self);
        }
        let mut tiles = GridMap::new();
        core::mem::swap(&mut tiles, &mut self.tiles);
        tiles.observe();
        let ghost s = tiles.entries_view();
        let ghost m = tiles@;
        let prev = tiles.insert(position, handle);
        tiles.observe();
        proof {
            assert forall|i: int|
                0 <= i < tiles.entries_view().len() implies vec_ok(
                (#[trigger] tiles.entries_view()[i]).0,
            ) by {
                // every entry of the new vector is either an old entry or the
                // inserted position
                let s2 = tiles.entries_view();
                if s2[i].0 != position {
                    assert(tiles@.contains_key(s2[i].0));
                    assert(m.contains_key(s2[i].0));
                    let j = choose|j: int| 0 <= j < s.len() && (#[trigger] s[j]).0 == s2[i].0;
                }
            }
        }
        self.tiles = tiles;
        prev
    }

    /// Remove the tile at a position, returning it if there was one.
    pub fn remove(&mut self, position: Vector2I) -> (r: Option<TileDefinitionHandle>)
        ensures
            final(self)@ == old(self)@.remove(position),
            match r {
                Some(h) => old(self)@.contains_key(position) && h == old(self)@[position],
                None => !old(self)@.contains_key(position),
            },
    {
        proof {
            use_type_invariant(&*self);
        }
        let mut tiles = GridMap::new();
        core::mem::swap(&mut tiles, &mut self.tiles);
        tiles.observe();
        let ghost s = tiles.entries_view();
        let ghost m = tiles@;
        let r = tiles.remove(&position);
        tiles.observe();
        proof {
            assert forall|i: int|
                0 <= i < tiles.entries_view().len() implies vec_ok(
                (#[trigger] tiles.entries_view()[i]).0,
            ) by {
                let s2 = tiles.entries_view();
                assert(tiles@.contains_key(s2[i].0));
                assert(m.contains_key(s2[i].0));
                let j = choose|j: int| 0 <= j < s.len() && (#[trigger] s[j]).0 == s2[i].0;
            }
        }
        self.tiles = tiles;
        r
    }

    /// The tile stored at a position, if any.
    pub fn get_at(&self, position: Vector2I) -> (r: Option<TileDefinitionHandle>)
        ensures
            r == if self@.contains_key(position) {
                Some(self@[position])
            } else {
                None::<TileDefinitionHandle>
            },
    {
        match self.tiles.get(&position) {
            Some(h) => Some(*h),
            None => None,
        }
    }

    /// Calculates the bounding rectangle of the tiles in grid coordinates.
    pub fn bounding_rect(&self) -> (r: OptionTileRect)
        ensures
            is_bounding_rect_of(self@.dom(), r@),
    {
        proof {
            use_type_invariant(&*self);
        }
        self.tiles.observe();
        bounding_rect_of(&self.tiles)
    }

    /// Clears the tile container.
    pub fn clear(&mut self)
        ensures
            final(self)@ == Map::<Vector2I, TileDefinitionHandle>::empty(),
    {
        let mut tiles = GridMap::new();
        core::mem::swap(&mut tiles, &mut self.tiles);
        tiles.clear();
        self.tiles = tiles;
    }
}

/// Rotate a grid position counter-clockwise by `amount` quarter turns, as
/// a position; meaningful when the position is within the coordinate range.
pub open spec fn rot_vec(amount: int, v: Vector2I) -> Vector2I {
    let q = crate::transform::rot_point(amount, (v.x as int, v.y as int));
    Vector2I { x: q.0 as i32, y: q.1 as i32 }
}

/// Flip a grid position along the x axis.
pub open spec fn x_flip_vec(v: Vector2I) -> Vector2I {
    Vector2I { x: (-(v.x as int)) as i32, y: v.y }
}

/// Flip a grid position along the y axis.
pub open spec fn y_flip_vec(v: Vector2I) -> Vector2I {
    Vector2I { x: v.x, y: (-(v.y as int)) as i32 }
}

/// Apply a transformation to a grid position, as a position; meaningful
/// when the position is within the coordinate range.
pub open spec fn apply_vec(t: OrthoTransformation, v: Vector2I) -> Vector2I {
    let q = t.apply_spec((v.x as int, v.y as int));
    Vector2I { x: q.0 as i32, y: q.1 as i32 }
}

/// Rebuild a tile map with every key moved by a transformation.
fn transform_tiles(
    m: TileGridMap<TileDefinitionHandle>,
    u: OrthoTransformation,
) -> (r: TileGridMap<TileDefinitionHandle>)
    requires
        forall|j: int| 0 <= j < m.entries_view().len() ==> vec_small((#[trigger] m.entries_view()[j]).0),
    ensures
        forall|p: Vector2I|
            #[trigger] m@.contains_key(p) ==> r@.contains_key(apply_vec(u, p)) && r@[apply_vec(u, p)]
                == m@[p],
        forall|q: Vector2I|
            #[trigger] r@.contains_key(q) ==> vec_small(q) && exists|p: Vector2I|
                #[trigger] m@.contains_key(p) && q == apply_vec(u, p),
{
    m.observe();
    let ghost s = m.entries_view();
    let n = m.len();
    let mut out: TileGridMap<TileDefinitionHandle> = GridMap::new();
    let mut i: usize = 0;
    while i < n
        invariant
            i <= n,
            n == s.len(),
            s == m.entries_view(),
            crate::grid_map::distinct_keys(s),
            forall|j: int| 0 <= j < n ==> vec_small((#[trigger] s[j]).0),
            forall|j: int|
                0 <= j < n ==> m@.contains_key((#[trigger] s[j]).0) && m@[s[j].0] == s[j].1,
            forall|j: int|
                0 <= j < i ==> out@.contains_key(apply_vec(u, (#[trigger] s[j]).0)) && out@[apply_vec(
                    u,
                    s[j].0,
                )] == s[j].1,
            forall|q: Vector2I|
                #[trigger] out@.contains_key(q) ==> vec_small(q) && exists|j: int|
                    0 <= j < i && q == apply_vec(u, (#[trigger] s[j]).0),
        decreases n - i,
    {
        let e = m.entry_at(i);
        let k2 = u.apply_to(e.0);
        proof {
            assert((k2.x as int, k2.y as int) == u.apply_spec((e.0.x as int, e.0.y as int)));
            assert(k2 == apply_vec(u, e.0));
        }
        out.insert(k2, *e.1);
        proof {
            assert forall|j: int|
                0 <= j <= i implies out@.contains_key(apply_vec(u, (#[trigger] s[j]).0))
                && out@[apply_vec(u, s[j].0)] == s[j].1 by {
                if j < i && apply_vec(u, s[j].0) == k2 {
                    u.lemma_apply_injective(
                        (s[j].0.x as int, s[j].0.y as int),
                        (s[i as int].0.x as int, s[i as int].0.y as int),
                    );
                }
            }
        }
        i = i + 1;
    }
    proof {
        assert forall|p: Vector2I| #[trigger] m@.contains_key(p) implies out@.contains_key(
            apply_vec(u, p),
        ) && out@[apply_vec(u, p)] == m@[p] by {
            let j = choose|j: int| 0 <= j < s.len() && (#[trigger] s[j]).0 == p;
        }
        assert forall|q: Vector2I| #[trigger] out@.contains_key(q) implies vec_small(q) && exists|
            p: Vector2I,
        | #[trigger] m@.contains_key(p) && q == apply_vec(u, p) by {
            let j = choose|j: int| 0 <= j < i && q == apply_vec(u, (#[trigger] s[j]).0);
            assert(m@.contains_key(s[j].0));
        }
    }
    out
}

/// A set of tiles and a transformation, which represents the tiles that
/// the user has selected to draw with.
pub struct Stamp {
    transform: OrthoTransformation,
    tiles: TileGridMap<TileDefinitionHandle>,
}

impl View for Stamp {
    type V = Map<Vector2I, TileDefinitionHandle>;

    closed spec fn view(&self) -> Map<Vector2I, TileDefinitionHandle> {
        self.tiles@
    }
}

impl Stamp {
    #[verifier::type_invariant]
    closed spec fn inv(&self) -> bool {
        forall|i: int|
            0 <= i < self.tiles.entries_view().len() ==> vec_small(
                (#[trigger] self.tiles.entries_view()[i]).0,
            )
    }

    /// The stored entries, in their (arbitrary) storage order.
    pub closed spec fn entries_view(&self) -> Seq<(Vector2I, TileDefinitionHandle)> {
        self.tiles.entries_view()
    }

    /// Bring into scope the facts that entries have distinct, bounded keys
    /// and describe the map; erased at run time.
    pub fn observe(&self)
        ensures
            crate::grid_map::distinct_keys(self.entries_view()),
            forall|i: int|
                0 <= i < self.entries_view().len() ==> vec_small((#[trigger] self.entries_view()[i]).0)
                    && self@.contains_key(self.entries_view()[i].0) && self@[self.entries_view()[i].0]
                    == self.entries_view()[i].1,
            forall|k: Vector2I|
                #[trigger] self@.contains_key(k) ==> vec_small(k) && exists|i: int|
                    0 <= i < self.entries_view().len() && (#[trigger] self.entries_view()[i]).0 == k,
    {
        proof {
            use_type_invariant(&*self);
        }
        self.tiles.observe();
    }

    /// An empty stamp carrying the identity transformation.
    pub fn new() -> (r: Self)
        ensures
            r@ == Map::<Vector2I, TileDefinitionHandle>::empty(),
            r.transform_spec() == OrthoTransformation::identity_spec(),
    {
        Stamp { transform: OrthoTransformation::identity(), tiles: GridMap::new() }
    }

    /// The number of tiles in the stamp.
    pub fn len(&self) -> (n: usize)
        ensures
            n == self.entries_view().len(),
    {
        self.tiles.len()
    }

    /// The entry stored at a storage index.
    pub fn entry_at(&self, i: usize) -> (r: (Vector2I, TileDefinitionHandle))
        requires
            i < self.entries_view().len(),
        ensures
            r == self.entries_view()[i as int],
            self@.contains_key(r.0),
            self@[r.0] == r.1,
    {
        let e = self.tiles.entry_at(i);
        (e.0, *e.1)
    }

    /// Store a tile at a position of the stamp.
    pub fn insert(&mut self, position: Vector2I, handle: TileDefinitionHandle)
        requires
            vec_small(position),
        ensures
            final(self)@ == old(self)@.insert(position, handle),
            final(self).transform_spec() == old(self).transform_spec(),
    {
        proof {
            use_type_invariant(&*self);
        }
        let mut tiles = GridMap::new();
        core::mem::swap(&mut tiles, &mut self.tiles);
        tiles.observe();
        let ghost s = tiles.entries_view();
        let ghost m = tiles@;
        tiles.insert(position, handle);
        tiles.observe();
        proof {
            assert forall|i: int|
                0 <= i < tiles.entries_view().len() implies vec_small(
                (#[trigger] tiles.entries_view()[i]).0,
            ) by {
                let s2 = tiles.entries_view();
                if s2[i].0 != position {
                    assert(tiles@.contains_key(s2[i].0));
                    assert(m.contains_key(s2[i].0));
                    let j = choose|j: int| 0 <= j < s.len() && (#[trigger] s[j]).0 == s2[i].0;
                }
            }
        }
        self.tiles = tiles;
    }

    /// The tile stored at a position of the stamp, if any.
    pub fn get_at(&self, position: Vector2I) -> (r: Option<TileDefinitionHandle>)
        ensures
            r == if self@.contains_key(position) {
                Some(self@[position])
            } else {
                None::<TileDefinitionHandle>
            },
    {
        match self.tiles.get(&position) {
            Some(h) => Some(*h),
            None => None,
        }
    }

    /// True if this stamp contains no tiles.
    pub fn is_empty(&self) -> (r: bool)
        ensures
            r <==> self@ == Map::<Vector2I, TileDefinitionHandle>::empty(),
    {
        self.tiles.is_empty()
    }

    /// Turn this stamp into an empty stamp carrying the identity
    /// transformation.
    pub fn clear(&mut self)
        ensures
            final(self)@ == Map::<Vector2I, TileDefinitionHandle>::empty(),
            final(self).transform_spec() == OrthoTransformation::identity_spec(),
    {
        let mut tiles = GridMap::new();
        core::mem::swap(&mut tiles, &mut self.tiles);
        tiles.clear();
        self.tiles = tiles;
        self.transform = OrthoTransformation::identity();
    }

    /// The smallest rectangle containing every tile of the stamp.
    pub fn bounding_rect(&self) -> (r: OptionTileRect)
        ensures
            is_bounding_rect_of(self@.dom(), r@),
    {
        proof {
            use_type_invariant(&*self);
        }
        bounding_rect_of(&self.tiles)
    }

    /// Clear this stamp and fill it with the given tiles. The tiles are
    /// moved so that the center of their bounding box is (0,0), and the
    /// transform is set to identity. On duplicate positions the last entry
    /// wins.
    #[verifier::rlimit(100)]
    #[verifier::spinoff_prover]
    pub fn build(&mut self, source: &Vec<(Vector2I, TileDefinitionHandle)>)
        requires
            forall|i: int| 0 <= i < source@.len() ==> vec_tiny((#[trigger] source@[i]).0),
        ensures
            final(self).transform_spec() == OrthoTransformation::identity_spec(),
            source@.len() == 0 ==> final(self)@ == Map::<Vector2I, TileDefinitionHandle>::empty(),
            source@.len() > 0 ==> forall|bs: crate::rect::TileRect|
                #[trigger] is_bounding_rect_of(selection_keys(source@), Some(bs)) ==> {
                    let c = rect_center(bs);
                    &&& forall|i: int|
                        0 <= i < source@.len() ==> final(self)@.contains_key(
                            shifted((#[trigger] source@[i]).0, c),
                        )
                    &&& forall|i: int|
                        0 <= i < source@.len() && (forall|j: int|
                            i < j < source@.len() ==> ((#[trigger] source@[j]).0) != source@[i].0)
                            ==> final(self)@[shifted((#[trigger] source@[i]).0, c)] == source@[i].1
                    &&& forall|q: Vector2I|
                        #[trigger] final(self)@.contains_key(q) ==> exists|i: int|
                            0 <= i < source@.len() && q == shifted((#[trigger] source@[i]).0, c)
                },
    {
        self.clear();
        let n = source.len();
        if n == 0 {
            return ;
        }
        let mut rect = OptionTileRect(None);
        let mut i: usize = 0;
        while i < n
            invariant
                i <= n,
                n == source@.len(),
                forall|j: int| 0 <= j < n ==> vec_tiny((#[trigger] source@[j]).0),
                (rect@ is Some) <==> i > 0,
                forall|j: int| 0 <= j < i ==> rect.contains_spec((#[trigger] source@[j]).0),
                rect@ is Some ==> {
                    let b = rect@->Some_0;
                    &&& -0x0fff_ffff <= b.left() <= 0x0fff_ffff
                    &&& -0x0fff_ffff <= b.right() <= 0x0fff_ffff
                    &&& -0x0fff_ffff <= b.bottom() <= 0x0fff_ffff
                    &&& -0x0fff_ffff <= b.top() <= 0x0fff_ffff
                    &&& (exists|j: int| 0 <= j < i && (#[trigger] source@[j]).0.x == b.left())
                    &&& (exists|j: int| 0 <= j < i && (#[trigger] source@[j]).0.x == b.right())
                    &&& (exists|j: int| 0 <= j < i && (#[trigger] source@[j]).0.y == b.bottom())
                    &&& (exists|j: int| 0 <= j < i && (#[trigger] source@[j]).0.y == b.top())
                },
            decreases n - i,
        {
            rect.push(source[i].0);
            i = i + 1;
        }
        let b = match rect.0 {
            Some(b) => b,
            None => {
                proof {
                    assert(false);
                }
                return ;
            }
        };
        let center = b.center();
        let ghost c = center;
        let mut i: usize = 0;
        while i < n
            invariant
                i <= n,
                n == source@.len(),
                forall|j: int| 0 <= j < n ==> vec_tiny((#[trigger] source@[j]).0),
                vec_ok(c),
                forall|j: int| 0 <= j < n ==> vec_small(shifted((#[trigger] source@[j]).0, c)),
                center == c,
                self.transform_spec() == OrthoTransformation::identity_spec(),
                forall|j: int|
                    0 <= j < i ==> self@.contains_key(shifted((#[trigger] source@[j]).0, c)),
                forall|j: int|
                    0 <= j < i && (forall|l: int|
                        j < l < i ==> ((#[trigger] source@[l]).0) != source@[j].0) ==> self@[shifted(
                        (#[trigger] source@[j]).0,
                        c,
                    )] == source@[j].1,
                forall|q: Vector2I|
                    #[trigger] self@.contains_key(q) ==> exists|j: int|
                        0 <= j < i && q == shifted((#[trigger] source@[j]).0, c),
            decreases n - i,
        {
            let e = source[i];
            let p = Vector2I { x: e.0.x - center.x, y: e.0.y - center.y };
            proof {
                assert(p == shifted(source@[i as int].0, c));
            }
            self.insert(p, e.1);
            proof {
                assert forall|j: int|
                    0 <= j <= i && (forall|l: int|
                        j < l <= i ==> ((#[trigger] source@[l]).0) != source@[j].0) implies self@[shifted(
                    (#[trigger] source@[j]).0,
                    c,
                )] == source@[j].1 by {}
            }
            i = i + 1;
        }
        proof {
            // the folded rectangle is the tight bounding rectangle of the
            // selection, so every such rectangle pins the same center
            let keys = selection_keys(source@);
            assert forall|k: Vector2I| #[trigger] keys.contains(k) implies b.contains_spec(k) by {
                let j = choose|j: int| 0 <= j < source@.len() && (#[trigger] source@[j]).0 == k;
            }
            assert(is_bounding_rect_of(keys, Some(b))) by {
                let jl = choose|j: int| 0 <= j < n && (#[trigger] source@[j]).0.x == b.left();
                assert(keys.contains(source@[jl].0) && source@[jl].0.x == b.left());
                let jr = choose|j: int| 0 <= j < n && (#[trigger] source@[j]).0.x == b.right();
                assert(keys.contains(source@[jr].0) && source@[jr].0.x == b.right());
                let jb = choose|j: int| 0 <= j < n && (#[trigger] source@[j]).0.y == b.bottom();
                assert(keys.contains(source@[jb].0) && source@[jb].0.y == b.bottom());
                let jt = choose|j: int| 0 <= j < n && (#[trigger] source@[j]).0.y == b.top();
                assert(keys.contains(source@[jt].0) && source@[jt].0.y == b.top());
            }
            assert forall|bs: crate::rect::TileRect|
                #[trigger] is_bounding_rect_of(keys, Some(bs)) implies bs == b && rect_center(bs)
                == c by {
                let kl = choose|k: Vector2I| #[trigger] keys.contains(k) && k.x == b.left();
                let kr = choose|k: Vector2I| #[trigger] keys.contains(k) && k.x == b.right();
                let kb = choose|k: Vector2I| #[trigger] keys.contains(k) && k.y == b.bottom();
                let kt = choose|k: Vector2I| #[trigger] keys.contains(k) && k.y == b.top();
                let kl2 = choose|k: Vector2I| #[trigger] keys.contains(k) && k.x == bs.left();
                let kr2 = choose|k: Vector2I| #[trigger] keys.contains(k) && k.x == bs.right();
                let kb2 = choose|k: Vector2I| #[trigger] keys.contains(k) && k.y == bs.bottom();
                let kt2 = choose|k: Vector2I| #[trigger] keys.contains(k) && k.y == bs.top();
                assert(bs.contains_spec(kl) && bs.contains_spec(kr) && bs.contains_spec(kb)
                    && bs.contains_spec(kt));
                assert(b.contains_spec(kl2) && b.contains_spec(kr2) && b.contains_spec(kb2)
                    && b.contains_spec(kt2));
                crate::rect::TileRect::lemma_rect_eq(bs, b);
                assert(rect_center(b) == c);
            }
        }
    }

    /// Create a repeating tile source from this stamp to repeat from
    /// `start` to `end`.
    pub fn repeat(&self, start: Vector2I, end: Vector2I) -> (r: RepeatTileSource<Stamp>)
        ensures
            *r.source == *self,
            is_bounding_rect_of(self@.dom(), r.region.bounds@),
            match r.region.bounds@ {
                None => r.region.origin == (Vector2I { x: 0, y: 0 }),
                Some(b) => {
                    &&& r.region.origin.x == if start.x - end.x <= 0 {
                        b.left()
                    } else {
                        b.right()
                    }
                    &&& r.region.origin.y == if start.y - end.y <= 0 {
                        b.bottom()
                    } else {
                        b.top()
                    }
                },
            },
            vec_ok(r.region.origin),
    {
        let bounds = self.bounding_rect();
        let dx: i64 = start.x as i64 - end.x as i64;
        let dy: i64 = start.y as i64 - end.y as i64;
        let direction = Vector2I {
            x: if dx <= 0 {
                -1
            } else {
                1
            },
            y: if dy <= 0 {
                -1
            } else {
                1
            },
        };
        let region = TileRegion::from_bounds_and_direction(bounds, direction);
        if let Some(b) = &region.bounds.0 {
            b.observe();
        }
        RepeatTileSource { source: self, region }
    }

    /// Rotate the stamp by the given number of 90-degree turns: both the
    /// stored transformation and the tile positions turn together.
    pub fn rotate(&mut self, amount: i8)
        ensures
            final(self).transform_spec().flip_spec() == old(self).transform_spec().flip_spec(),
            forall|p: (int, int)| #[trigger] final(self).transform_spec().apply_spec(p)
                == crate::transform::rot_point(
                amount as int,
                old(self).transform_spec().apply_spec(p),
            ),
            forall|p: Vector2I|
                #[trigger] old(self)@.contains_key(p) ==> final(self)@.contains_key(
                    rot_vec(amount as int, p),
                ) && final(self)@[rot_vec(amount as int, p)] == old(self)@[p],
            forall|q: Vector2I|
                #[trigger] final(self)@.contains_key(q) ==> exists|p: Vector2I|
                    #[trigger] old(self)@.contains_key(p) && q == rot_vec(amount as int, p),
    {
        proof {
            use_type_invariant(&*self);
        }
        let id = OrthoTransformation::identity();
        let u = id.rotated(amount);
        self.transform = self.transform.rotated(amount);
        let mut tiles = GridMap::new();
        core::mem::swap(&mut tiles, &mut self.tiles);
        tiles.observe();
        let ghost m = tiles@;
        let out = transform_tiles(tiles, u);
        proof {
            assert forall|p: Vector2I| vec_ok(p) implies apply_vec(u, p) == rot_vec(
                amount as int,
                p,
            ) by {
                let pp = (p.x as int, p.y as int);
                assert(id.apply_spec(pp) == pp);
                assert(u.apply_spec(pp) == crate::transform::rot_point(
                    amount as int,
                    id.apply_spec(pp),
                ));
            }
            assert forall|p: Vector2I| #[trigger] m.contains_key(p) implies vec_ok(p) by {}
            assert forall|q: Vector2I| #[trigger] out@.contains_key(q) implies exists|p: Vector2I|
                #[trigger] m.contains_key(p) && q == rot_vec(amount as int, p) by {
                let p = choose|p: Vector2I| #[trigger] m.contains_key(p) && q == apply_vec(u, p);
                assert(vec_ok(p));
                assert(q == rot_vec(amount as int, p));
            }
            assert forall|p: Vector2I| #[trigger] m.contains_key(p) implies out@.contains_key(
                rot_vec(amount as int, p),
            ) && out@[rot_vec(amount as int, p)] == m[p] by {
                assert(out@.contains_key(apply_vec(u, p)));
                assert(apply_vec(u, p) == rot_vec(amount as int, p));
            }
        }
        out.observe();
        self.tiles = out;
        proof {
            assert(old(self)@ == m);
            assert(self@ == out@);
        }
    }

    /// Flip the stamp along the x axis: both the stored transformation and
    /// the tile positions flip together.
    pub fn x_flip(&mut self)
        ensures
            forall|p: (int, int)| #[trigger] final(self).transform_spec().apply_spec(p)
                == crate::transform::x_flip_point(old(self).transform_spec().apply_spec(p)),
            forall|p: Vector2I|
                #[trigger] old(self)@.contains_key(p) ==> final(self)@.contains_key(x_flip_vec(p))
                    && final(self)@[x_flip_vec(p)] == old(self)@[p],
            forall|q: Vector2I|
                #[trigger] final(self)@.contains_key(q) ==> exists|p: Vector2I|
                    #[trigger] old(self)@.contains_key(p) && q == x_flip_vec(p),
    {
        proof {
            use_type_invariant(&*self);
        }
        let id = OrthoTransformation::identity();
        let u = id.x_flipped();
        self.transform = self.transform.x_flipped();
        let mut tiles = GridMap::new();
        core::mem::swap(&mut tiles, &mut self.tiles);
        tiles.observe();
        let ghost m = tiles@;
        let out = transform_tiles(tiles, u);
        proof {
            assert forall|p: Vector2I| vec_ok(p) implies apply_vec(u, p) == x_flip_vec(p) by {
                let pp = (p.x as int, p.y as int);
                assert(id.apply_spec(pp) == pp);
                assert(u.apply_spec(pp) == crate::transform::x_flip_point(id.apply_spec(pp)));
            }
            assert forall|p: Vector2I| #[trigger] m.contains_key(p) implies vec_ok(p) by {}
            assert forall|q: Vector2I| #[trigger] out@.contains_key(q) implies exists|p: Vector2I|
                #[trigger] m.contains_key(p) && q == x_flip_vec(p) by {
                let p = choose|p: Vector2I| #[trigger] m.contains_key(p) && q == apply_vec(u, p);
                assert(q == x_flip_vec(p));
            }
            assert forall|p: Vector2I| #[trigger] m.contains_key(p) implies out@.contains_key(
                x_flip_vec(p),
            ) && out@[x_flip_vec(p)] == m[p] by {
                assert(out@.contains_key(apply_vec(u, p)));
                assert(apply_vec(u, p) == x_flip_vec(p));
            }
        }
        out.observe();
        self.tiles = out;
        proof {
            assert(old(self)@ == m);
            assert(self@ == out@);
        }
    }

    /// Flip the stamp along the y axis: both the stored transformation and
    /// the tile positions flip together.
    pub fn y_flip(&mut self)
        ensures
            forall|p: (int, int)| #[trigger] final(self).transform_spec().apply_spec(p) == (
                old(self).transform_spec().apply_spec(p).0,
                -old(self).transform_spec().apply_spec(p).1,
            ),
            forall|p: Vector2I|
                #[trigger] old(self)@.contains_key(p) ==> final(self)@.contains_key(y_flip_vec(p))
                    && final(self)@[y_flip_vec(p)] == old(self)@[p],
            forall|q: Vector2I|
                #[trigger] final(self)@.contains_key(q) ==> exists|p: Vector2I|
                    #[trigger] old(self)@.contains_key(p) && q == y_flip_vec(p),
    {
        proof {
            use_type_invariant(&*self);
        }
        let id = OrthoTransformation::identity();
        let u = id.y_flipped();
        self.transform = self.transform.y_flipped();
        let mut tiles = GridMap::new();
        core::mem::swap(&mut tiles, &mut self.tiles);
        tiles.observe();
        let ghost m = tiles@;
        let out = transform_tiles(tiles, u);
        proof {
            assert forall|p: Vector2I| vec_ok(p) implies apply_vec(u, p) == y_flip_vec(p) by {
                let pp = (p.x as int, p.y as int);
                assert(id.apply_spec(pp) == pp);
                assert(u.apply_spec(pp) == (id.apply_spec(pp).0, -id.apply_spec(pp).1));
            }
            assert forall|p: Vector2I| #[trigger] m.contains_key(p) implies vec_ok(p) by {}
            assert forall|q: Vector2I| #[trigger] out@.contains_key(q) implies exists|p: Vector2I|
                #[trigger] m.contains_key(p) && q == y_flip_vec(p) by {
                let p = choose|p: Vector2I| #[trigger] m.contains_key(p) && q == apply_vec(u, p);
                assert(q == y_flip_vec(p));
            }
            assert forall|p: Vector2I| #[trigger] m.contains_key(p) implies out@.contains_key(
                y_flip_vec(p),
            ) && out@[y_flip_vec(p)] == m[p] by {
                assert(out@.contains_key(apply_vec(u, p)));
                assert(apply_vec(u, p) == y_flip_vec(p));
            }
        }
        out.observe();
        self.tiles = out;
        proof {
            assert(old(self)@ == m);
            assert(self@ == out@);
        }
    }
}

/// The position `p` moved so that `c` becomes the origin.
pub open spec fn shifted(p: Vector2I, c: Vector2I) -> Vector2I {
    Vector2I { x: (p.x - c.x) as i32, y: (p.y - c.y) as i32 }
}

/// The positions a selection yields.
pub open spec fn selection_keys(source: Seq<(Vector2I, TileDefinitionHandle)>) -> Set<Vector2I> {
    Set::new(
        |p: Vector2I| exists|i: int| 0 <= i < source.len() && (#[trigger] source[i]).0 == p,
    )
}

/// The cell at the middle of a rectangle, as [`crate::rect::TileRect::center`]
/// computes it.
pub open spec fn rect_center(b: crate::rect::TileRect) -> Vector2I {
    Vector2I {
        x: (b.left() + b.width() / 2) as i32,
        y: (b.bottom() + b.height() / 2) as i32,
    }
}

impl TileSource for Stamp {
    open spec fn wf(&self) -> bool {
        true
    }

    closed spec fn transform_spec(&self) -> OrthoTransformation {
        self.transform
    }

    open spec fn valid_at(&self, position: Vector2I, result: Option<TileDefinitionHandle>) -> bool {
        result == if self@.contains_key(position) {
            Some(self@[position])
        } else {
            None::<TileDefinitionHandle>
        }
    }

    fn transformation(&self) -> (t: OrthoTransformation) {
        self.transform
    }

    fn get_at(&self, position: Vector2I) -> (r: Option<TileDefinitionHandle>) {
        Stamp::get_at(self, position)
    }
}

/// A tile source that produces a uniformly random tile from the included
/// set of tiles, freshly sampled on every call.
pub struct RandomTileSource<'a>(pub &'a Stamp);

impl<'a> TileSource for RandomTileSource<'a> {
    open spec fn wf(&self) -> bool {
        true
    }

    open spec fn transform_spec(&self) -> OrthoTransformation {
        self.0.transform_spec()
    }

    open spec fn valid_at(&self, position: Vector2I, result: Option<TileDefinitionHandle>) -> bool {
        match result {
            None => self.0@ == Map::<Vector2I, TileDefinitionHandle>::empty(),
            Some(h) => exists|p: Vector2I| #[trigger] self.0@.contains_key(p) && self.0@[p] == h,
        }
    }

    fn transformation(&self) -> (t: OrthoTransformation) {
        self.0.transformation()
    }

    fn get_at(&self, _position: Vector2I) -> (r: Option<TileDefinitionHandle>) {
        let n = self.0.len();
        if n == 0 {
            self.0.observe();
            proof {
                assert(self.0@ =~= Map::<Vector2I, TileDefinitionHandle>::empty());
            }
            None
        } else {
            let e = self.0.entry_at(random_index(n));
            Some(e.1)
        }
    }
}

/// A tile source that produces a random tile from the part of a stamp
/// lying within a given rectangle.
pub struct PartialRandomTileSource<'a>(pub &'a Stamp, pub OptionTileRect);

impl<'a> TileSource for PartialRandomTileSource<'a> {
    open spec fn wf(&self) -> bool {
        true
    }

    open spec fn transform_spec(&self) -> OrthoTransformation {
        self.0.transform_spec()
    }

    open spec fn valid_at(&self, position: Vector2I, result: Option<TileDefinitionHandle>) -> bool {
        match self.1@ {
            None => result is None,
            Some(b) => exists|q: Vector2I|
                #[trigger] b.contains_spec(q) && result == if self.0@.contains_key(q) {
                    Some(self.0@[q])
                } else {
                    None::<TileDefinitionHandle>
                },
        }
    }

    fn transformation(&self) -> (t: OrthoTransformation) {
        self.0.transformation()
    }

    fn get_at(&self, _position: Vector2I) -> (r: Option<TileDefinitionHandle>) {
        let b = match &self.1.0 {
            None => {
                return None;
            }
            Some(b) => b,
        };
        b.observe();
        let pos = b.position();
        let size = b.size();
        let x = pos.x + random_index(size.x as usize) as i32;
        let y = pos.y + random_index(size.y as usize) as i32;
        let q = Vector2I { x, y };
        proof {
            assert(b.contains_spec(q));
        }
        self.0.get_at(q)
    }
}

/// A tile source that adapts another source so that it infinitely repeats
/// the tiles within the given rectangle.
pub struct RepeatTileSource<'a, S> {
    /// The tiles to repeat.
    pub source: &'a S,
    /// The region within the source to repeat.
    pub region: TileRegion,
}

/// Where a repeating source looks up a queried position: the position is
/// shifted by the region origin and wrapped into the region bounds by a
/// Euclidean modulus along each axis.
pub open spec fn wrap_spec(region: TileRegion, p: Vector2I) -> Vector2I
    recommends
        region.bounds@ is Some,
{
    let b = region.bounds@->Some_0;
    let dx = p.x + region.origin.x - b.left();
    let dy = p.y + region.origin.y - b.bottom();
    Vector2I {
        x: (b.left() + dx % b.width()) as i32,
        y: (b.bottom() + dy % b.height()) as i32,
    }
}

impl<'a, S: TileSource> TileSource for RepeatTileSource<'a, S> {
    open spec fn wf(&self) -> bool {
        self.source.wf() && vec_ok(self.region.origin)
    }

    open spec fn transform_spec(&self) -> OrthoTransformation {
        self.source.transform_spec()
    }

    open spec fn valid_at(&self, position: Vector2I, result: Option<TileDefinitionHandle>) -> bool {
        match self.region.bounds@ {
            None => result is None,
            Some(b) => self.source.valid_at(wrap_spec(self.region, position), result),
        }
    }

    fn transformation(&self) -> (t: OrthoTransformation) {
        self.source.transformation()
    }

    fn get_at(&self, position: Vector2I) -> (r: Option<TileDefinitionHandle>) {
        let b = match &self.region.bounds.0 {
            None => {
                return None;
            }
            Some(b) => b,
        };
        b.observe();
        let pos = b.position();
        let size = b.size();
        let dx: i64 = position.x as i64 + self.region.origin.x as i64 - pos.x as i64;
        let dy: i64 = position.y as i64 + self.region.origin.y as i64 - pos.y as i64;
        let mx = dx.checked_rem_euclid(size.x as i64).unwrap();
        let my = dy.checked_rem_euclid(size.y as i64).unwrap();
        let q = Vector2I { x: pos.x + mx as i32, y: pos.y + my as i32 };
        proof {
            vstd::arithmetic::div_mod::lemma_mod_bound(dx as int, size.x as int);
            vstd::arithmetic::div_mod::lemma_mod_bound(dy as int, size.y as int);
            assert(q == wrap_spec(self.region, position));
        }
        self.source.get_at(q)
    }
}

/// Wrapping a position is periodic: shifting a query by any whole number
/// of region sizes along each axis looks up the same source position.
pub proof fn lemma_repeat_periodic(region: TileRegion, p: Vector2I, q: Vector2I, k: int, l: int)
    requires
        region.bounds@ is Some,
        1 <= region.bounds@->Some_0.width(),
        1 <= region.bounds@->Some_0.height(),
        q.x == p.x + k * region.bounds@->Some_0.width(),
        q.y == p.y + l * region.bounds@->Some_0.height(),
    ensures
        wrap_spec(region, q) == wrap_spec(region, p),
{
    let b = region.bounds@->Some_0;
    let w = b.width();
    let h = b.height();
    let dx = p.x + region.origin.x - b.left();
    let dy = p.y + region.origin.y - b.bottom();
    vstd::arithmetic::div_mod::lemma_mod_multiples_vanish(k, dx, w);
    vstd::arithmetic::div_mod::lemma_mod_multiples_vanish(l, dy, h);
    assert(w * k == k * w) by (nonlinear_arith);
    assert(h * l == l * h) by (nonlinear_arith);
}

impl TileSource for Tiles {
    open spec fn wf(&self) -> bool {
        true
    }

    open spec fn transform_spec(&self) -> OrthoTransformation {
        OrthoTransformation::identity_spec()
    }

    open spec fn valid_at(&self, position: Vector2I, result: Option<TileDefinitionHandle>) -> bool {
        result == if self@.contains_key(position) {
            Some(self@[position])
        } else {
            None::<TileDefinitionHandle>
        }
    }

    fn transformation(&self) -> (t: OrthoTransformation) {
        OrthoTransformation::identity()
    }

    fn get_at(&self, position: Vector2I) -> (r: Option<TileDefinitionHandle>) {
        self.get_at(position)
    }
}

} // verus!
