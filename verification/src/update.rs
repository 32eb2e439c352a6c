//! The update/diff engine: turning drawing gestures into sparse change
//! sets over tile grids.
//!
//! A [`TransTilesUpdate`] records, for each touched cell, either a new
//! (transformation, handle) pair or an erasure; it is built by the drawing
//! operations (stamp, line, rectangle fill, flood fill, nine-slice) and
//! later resolved against a tile set.

use vstd::prelude::*;

use crate::geom::Vector2I;
use crate::grid_map::BoundedGridMap;
use crate::handle::TileDefinitionHandle;
use crate::rect::vec_ok;
use crate::rect::OptionTileRect;
use crate::rect::TileRect;
use crate::source::shifted;
use crate::source::RandomTileSource;
use crate::source::RepeatTileSource;
use crate::source::Stamp;
use crate::source::TileRegion;
use crate::source::TileSource;
use crate::source::Tiles;
use crate::transform::OrthoTransformation;

verus! {

/// A transformation together with the handle it applies to.
pub type RotTileHandle = (OrthoTransformation, TileDefinitionHandle);

/// This is a step in the process of performing an edit to a tile map,
/// brush, or tile set. It provides handles for the tiles to be written and
/// the transformation to apply to those tiles; a `None` value records that
/// the cell is to be erased.
pub type TransTilesUpdate = BoundedGridMap<Option<RotTileHandle>>;

/// A set of changes to a set of tiles. A value of `None` indicates that a
/// tile is being removed from the set.
pub type TilesUpdate = BoundedGridMap<Option<TileDefinitionHandle>>;

/// The position `p` moved by the offset `o`.
pub open spec fn translated(p: Vector2I, o: Vector2I) -> Vector2I {
    Vector2I { x: (p.x + o.x) as i32, y: (p.y + o.y) as i32 }
}

/// The value that a drawing operation writes for a source result: the
/// source's transformation paired with the produced handle, or an erasure
/// when the source produced nothing.
pub open spec fn trans_value(t: OrthoTransformation, r: Option<TileDefinitionHandle>) -> Option<
    RotTileHandle,
> {
    match r {
        Some(h) => Some((t, h)),
        None => None,
    }
}

/// The value a map holds at a key, or `None` off its domain.
pub open spec fn map_at<K, V>(m: Map<K, V>, k: K) -> Option<V> {
    if m.contains_key(k) {
        Some(m[k])
    } else {
        None
    }
}

/// A cell emitted by the Bresenham walk: the axes are swapped back when
/// the line was rasterized along the steep axis.
pub open spec fn bres_out(steep: bool, x: int, y: int) -> Vector2I {
    if steep {
        Vector2I { x: y as i32, y: x as i32 }
    } else {
        Vector2I { x: x as i32, y: y as i32 }
    }
}

/// The cells emitted by a Bresenham walk from the given state: one cell
/// per x from `x` to `end_x`, stepping y whenever the accumulated error
/// crosses zero.
pub open spec fn bres_points(
    dx: int,
    dy: int,
    x: int,
    y: int,
    error: int,
    end_x: int,
    steep: bool,
    y_step: int,
) -> Seq<Vector2I>
    decreases
            (if x <= end_x {
                end_x - x + 1
            } else {
                0
            }),
{
    if x > end_x {
        Seq::empty()
    } else {
        let e2 = error - dy;
        let y2 = if e2 < 0 {
            y + y_step
        } else {
            y
        };
        let e3 = if e2 < 0 {
            e2 + dx
        } else {
            e2
        };
        seq![bres_out(steep, x, y)] + bres_points(dx, dy, x + 1, y2, e3, end_x, steep, y_step)
    }
}

/// The cells of the Bresenham line between two points: the walk runs along
/// the longer axis, from the smaller to the larger coordinate.
pub open spec fn line_points(from: Vector2I, to: Vector2I) -> Seq<Vector2I> {
    let steep = vstd::math::abs(to.y - from.y) > vstd::math::abs(to.x - from.x);
    let a0 = if steep {
        (from.y as int, from.x as int)
    } else {
        (from.x as int, from.y as int)
    };
    let a1 = if steep {
        (to.y as int, to.x as int)
    } else {
        (to.x as int, to.y as int)
    };
    let s0 = if a0.0 > a1.0 {
        a1
    } else {
        a0
    };
    let s1 = if a0.0 > a1.0 {
        a0
    } else {
        a1
    };
    let dx = s1.0 - s0.0;
    let dy = vstd::math::abs(s1.1 - s0.1) as int;
    let y_step: int = if s0.1 < s1.1 {
        1
    } else {
        -1
    };
    bres_points(dx, dy, s0.0, s0.1, dx / 2, s1.0, steep, y_step)
}

/// The region a repeating fill reads its stamp through: the stamp's
/// bounding rectangle, anchored at the corner facing the drag direction
/// from `start` to `end`.
pub open spec fn repeat_region(bs: TileRect, start: Vector2I, end: Vector2I) -> TileRegion {
    TileRegion {
        origin: vec2(
            if start.x - end.x <= 0 {
                bs.left()
            } else {
                bs.right()
            },
            if start.y - end.y <= 0 {
                bs.bottom()
            } else {
                bs.top()
            },
        ),
        bounds: OptionTileRect(Some(bs)),
    }
}

/// A grid position built from two mathematical coordinates.
pub open spec fn vec2(x: int, y: int) -> Vector2I {
    Vector2I { x: x as i32, y: y as i32 }
}

/// What a corner write of a nine-slice leaves at the target corner `tc`:
/// the stamp's tile at the source corner `sc` (with the stamp's
/// transformation), or the original value when the stamp has no tile
/// there.
pub open spec fn corner_write(
    m0: Map<Vector2I, Option<RotTileHandle>>,
    m1: Map<Vector2I, Option<RotTileHandle>>,
    sm: Map<Vector2I, TileDefinitionHandle>,
    t: OrthoTransformation,
    sc: Vector2I,
    tc: Vector2I,
) -> bool {
    match map_at(sm, sc) {
        Some(h) => map_at(m1, tc) == Some(Some((t, h))),
        None => map_at(m1, tc) == map_at(m0, tc),
    }
}

/// Wrap a relative position into one part of the stamp: the position is
/// shifted by the repeat anchor `o` and wrapped into the part's rectangle
/// (left `pl`, bottom `pb`, size `pw` by `ph`) by a Euclidean modulus
/// along each axis, exactly as a repeating source does.
pub open spec fn wrap_at(o: Vector2I, pl: int, pb: int, pw: int, ph: int, p: Vector2I) -> Vector2I {
    vec2(pl + (p.x + o.x - pl) % pw, pb + (p.y + o.y - pb) % ph)
}

/// What filling one part of a nine-slice leaves at a covered target cell
/// `t`: the deterministic variant writes the stamp's tile at the wrapped
/// position of `t` within the part (and leaves the cell unchanged when
/// the part holds no tile there); the random variant writes some tile of
/// the part, or leaves the cell unchanged.
pub open spec fn part_fill(
    random: bool,
    m0: Map<Vector2I, Option<RotTileHandle>>,
    m1: Map<Vector2I, Option<RotTileHandle>>,
    sm: Map<Vector2I, TileDefinitionHandle>,
    trans: OrthoTransformation,
    o: Vector2I,
    pl: int,
    pb: int,
    pw: int,
    ph: int,
    origin: Vector2I,
    t: Vector2I,
) -> bool {
    if random {
        ||| map_at(m1, t) == map_at(m0, t)
        ||| exists|q: Vector2I|
            pl <= q.x <= pl + pw - 1 && pb <= q.y <= pb + ph - 1 && #[trigger] sm.contains_key(q)
                && map_at(m1, t) == Some(Some((trans, sm[q])))
    } else {
        match map_at(sm, wrap_at(o, pl, pb, pw, ph, shifted(t, origin))) {
            Some(tile) => map_at(m1, t) == Some(Some((trans, tile))),
            None => map_at(m1, t) == map_at(m0, t),
        }
    }
}

/// What a nine-slice stamping guarantees of the diff: nothing outside the
/// target rectangle changes and an empty stamp changes nothing; when the
/// target is at most 2 cells wide or tall, only cells on the short axis'
/// two extreme lines change; on a target with distinct corners, each
/// target corner receives the stamp's corresponding bounding-box corner
/// tile; each target edge is filled from the matching stamp edge
/// (repeated, or sampled at random) when both the target and the stamp
/// are wide or tall enough in that axis, and is untouched when the stamp
/// is too narrow; and the interior is filled from the stamp's center part
/// in the same way.
pub open spec fn nine_slice_post(
    m0: Map<Vector2I, Option<RotTileHandle>>,
    m1: Map<Vector2I, Option<RotTileHandle>>,
    start: Vector2I,
    end: Vector2I,
    stamp: &Stamp,
    random: bool,
) -> bool {
    let minx = vstd::math::min(start.x as int, end.x as int);
    let maxx = vstd::math::max(start.x as int, end.x as int);
    let miny = vstd::math::min(start.y as int, end.y as int);
    let maxy = vstd::math::max(start.y as int, end.y as int);
    let sm = stamp@;
    let trans = stamp.transform_spec();
    &&& forall|q: Vector2I|
        !(#[trigger] crate::rect::between_spec(start, end, q)) ==> map_at(m1, q) == map_at(m0, q)
    &&& stamp@ == Map::<Vector2I, TileDefinitionHandle>::empty() ==> m1 == m0
    &&& maxx - minx <= 1 ==> forall|q: Vector2I|
        map_at(m1, q) != #[trigger] map_at(m0, q) ==> q.x == minx || q.x == maxx
    &&& maxy - miny <= 1 ==> forall|q: Vector2I|
        map_at(m1, q) != #[trigger] map_at(m0, q) ==> q.y == miny || q.y == maxy
    &&& forall|bs: TileRect|
        #[trigger] crate::source::is_bounding_rect_of(stamp@.dom(), Some(bs)) ==> {
            let o = repeat_region(bs, start, end).origin;
            // the four corners, when the target corners are distinct
            &&& maxx > minx && maxy > miny ==> {
                &&& corner_write(m0, m1, sm, trans, vec2(bs.left(), bs.top()), vec2(minx, maxy))
                &&& corner_write(m0, m1, sm, trans, vec2(bs.right(), bs.top()), vec2(maxx, maxy))
                &&& corner_write(
                    m0,
                    m1,
                    sm,
                    trans,
                    vec2(bs.right(), bs.bottom()),
                    vec2(maxx, miny),
                )
                &&& corner_write(
                    m0,
                    m1,
                    sm,
                    trans,
                    vec2(bs.left(), bs.bottom()),
                    vec2(minx, miny),
                )
            }
            // the top and bottom edges, from the stamp's top and bottom rows
            &&& forall|q: Vector2I|
                #![trigger q.x, q.y]
                minx < q.x < maxx && q.y == maxy && maxy != miny && maxx - minx + 1 > 2
                    && bs.width() > 2 ==> part_fill(
                    random,
                    m0,
                    m1,
                    sm,
                    trans,
                    o,
                    bs.left() + 1,
                    bs.top(),
                    bs.width() - 2,
                    1,
                    start,
                    q,
                )
            &&& forall|q: Vector2I|
                #![trigger q.x, q.y]
                minx < q.x < maxx && q.y == miny && maxy != miny && maxx - minx + 1 > 2
                    && bs.width() > 2 ==> part_fill(
                    random,
                    m0,
                    m1,
                    sm,
                    trans,
                    o,
                    bs.left() + 1,
                    bs.bottom(),
                    bs.width() - 2,
                    1,
                    start,
                    q,
                )
            // a stamp under 3 cells wide leaves the horizontal edges alone
            &&& forall|q: Vector2I|
                #![trigger q.x, q.y]
                minx < q.x < maxx && (q.y == miny || q.y == maxy) && maxx - minx + 1 > 2
                    && bs.width() <= 2 ==> map_at(m1, q) == map_at(m0, q)
            // the left and right edges, from the stamp's side columns
            &&& forall|q: Vector2I|
                #![trigger q.x, q.y]
                miny < q.y < maxy && q.x == minx && minx != maxx && maxy - miny + 1 > 2
                    && bs.height() > 2 ==> part_fill(
                    random,
                    m0,
                    m1,
                    sm,
                    trans,
                    o,
                    bs.left(),
                    bs.bottom() + 1,
                    1,
                    bs.height() - 2,
                    start,
                    q,
                )
            &&& forall|q: Vector2I|
                #![trigger q.x, q.y]
                miny < q.y < maxy && q.x == maxx && minx != maxx && maxy - miny + 1 > 2
                    && bs.height() > 2 ==> part_fill(
                    random,
                    m0,
                    m1,
                    sm,
                    trans,
                    o,
                    bs.right(),
                    bs.bottom() + 1,
                    1,
                    bs.height() - 2,
                    start,
                    q,
                )
            // a stamp under 3 cells tall leaves the vertical edges alone
            &&& forall|q: Vector2I|
                #![trigger q.x, q.y]
                miny < q.y < maxy && (q.x == minx || q.x == maxx) && maxy - miny + 1 > 2
                    && bs.height() <= 2 ==> map_at(m1, q) == map_at(m0, q)
            // the interior, from the stamp's center part
            &&& forall|q: Vector2I|
                #![trigger q.x, q.y]
                minx < q.x < maxx && miny < q.y < maxy ==> if bs.width() > 2 && bs.height() > 2 {
                    part_fill(
                        random,
                        m0,
                        m1,
                        sm,
                        trans,
                        o,
                        bs.left() + 1,
                        bs.bottom() + 1,
                        bs.width() - 2,
                        bs.height() - 2,
                        start,
                        q,
                    )
                } else {
                    map_at(m1, q) == map_at(m0, q)
                }
        }
}

/// Assemble the nine-slice postcondition from the facts of its seven
/// phases: the four corner writes (from `m0` to `m1`), the two horizontal
/// edge fills (to `m2`, `m3`), the two vertical edge fills (to `m4`,
/// `m5`), and the interior fill (to `m6`), each described by the part it
/// read and the cells it may have touched.
#[verifier::rlimit(100)]
#[verifier::spinoff_prover]
proof fn lemma_nine_slice_phases(
    random: bool,
    stamp: &Stamp,
    start: Vector2I,
    end: Vector2I,
    srect: TileRect,
    sorig: Vector2I,
    m0: Map<Vector2I, Option<RotTileHandle>>,
    m1: Map<Vector2I, Option<RotTileHandle>>,
    m2: Map<Vector2I, Option<RotTileHandle>>,
    m3: Map<Vector2I, Option<RotTileHandle>>,
    m4: Map<Vector2I, Option<RotTileHandle>>,
    m5: Map<Vector2I, Option<RotTileHandle>>,
    m6: Map<Vector2I, Option<RotTileHandle>>,
    top_bounds: Option<TileRect>,
    bottom_bounds: Option<TileRect>,
    left_bounds: Option<TileRect>,
    right_bounds: Option<TileRect>,
    inner_bounds: Option<TileRect>,
    st_top: Option<TileRect>,
    st_bottom: Option<TileRect>,
    st_left: Option<TileRect>,
    st_right: Option<TileRect>,
    st_inner: Option<TileRect>,
)
    requires
        crate::source::is_bounding_rect_of(stamp@.dom(), Some(srect)),
        sorig == repeat_region(srect, start, end).origin,
        ({
            let minx = vstd::math::min(start.x as int, end.x as int);
            let maxx = vstd::math::max(start.x as int, end.x as int);
            let miny = vstd::math::min(start.y as int, end.y as int);
            let maxy = vstd::math::max(start.y as int, end.y as int);
            let sm = stamp@;
            let trans = stamp.transform_spec();
            &&& (maxx > minx && maxy > miny ==> {
                &&& corner_write(m0, m1, sm, trans, vec2(srect.left(), srect.top()), vec2(minx, maxy))
                &&& corner_write(
                    m0,
                    m1,
                    sm,
                    trans,
                    vec2(srect.right(), srect.top()),
                    vec2(maxx, maxy),
                )
                &&& corner_write(
                    m0,
                    m1,
                    sm,
                    trans,
                    vec2(srect.right(), srect.bottom()),
                    vec2(maxx, miny),
                )
                &&& corner_write(
                    m0,
                    m1,
                    sm,
                    trans,
                    vec2(srect.left(), srect.bottom()),
                    vec2(minx, miny),
                )
            })
            &&& forall|q: Vector2I|
                #![trigger map_at(m1, q)]
                q != vec2(minx, maxy) && q != vec2(maxx, maxy) && q != vec2(maxx, miny) && q
                    != vec2(minx, miny) ==> map_at(m1, q) == map_at(m0, q)
            // the horizontal edge phase
            &&& ((top_bounds is Some) <==> (maxx - minx + 1 > 2 && srect.width() > 2))
            &&& ((bottom_bounds is Some) <==> (maxx - minx + 1 > 2 && srect.width() > 2))
            &&& (top_bounds is None ==> m2 == m1 && m3 == m2)
            &&& (top_bounds is Some ==> {
                let tb = top_bounds->Some_0;
                let bb = bottom_bounds->Some_0;
                let pt = st_top->Some_0;
                let pb = st_bottom->Some_0;
                &&& tb.left() == minx + 1 && tb.right() == maxx - 1 && tb.bottom() == maxy
                    && tb.top() == maxy
                &&& bb.left() == minx + 1 && bb.right() == maxx - 1 && bb.bottom() == miny
                    && bb.top() == miny
                &&& st_top is Some && pt.left() == srect.left() + 1 && pt.bottom() == srect.top()
                    && pt.width() == srect.width() - 2 && pt.height() == 1
                &&& st_bottom is Some && pb.left() == srect.left() + 1 && pb.bottom()
                    == srect.bottom() && pb.width() == srect.width() - 2 && pb.height() == 1
                &&& forall|t: Vector2I|
                    #[trigger] tb.contains_spec(t) ==> part_fill(
                        random,
                        m1,
                        m2,
                        sm,
                        trans,
                        sorig,
                        pt.left(),
                        pt.bottom(),
                        pt.width(),
                        pt.height(),
                        start,
                        t,
                    )
                &&& forall|q: Vector2I|
                    map_at(m2, q) != map_at(m1, q) ==> #[trigger] tb.contains_spec(q)
                &&& forall|t: Vector2I|
                    #[trigger] bb.contains_spec(t) ==> part_fill(
                        random,
                        m2,
                        m3,
                        sm,
                        trans,
                        sorig,
                        pb.left(),
                        pb.bottom(),
                        pb.width(),
                        pb.height(),
                        start,
                        t,
                    )
                &&& forall|q: Vector2I|
                    map_at(m3, q) != map_at(m2, q) ==> #[trigger] bb.contains_spec(q)
            })
            // the vertical edge phase
            &&& ((left_bounds is Some) <==> (maxy - miny + 1 > 2 && srect.height() > 2))
            &&& ((right_bounds is Some) <==> (maxy - miny + 1 > 2 && srect.height() > 2))
            &&& (left_bounds is None ==> m4 == m3 && m5 == m4)
            &&& (left_bounds is Some ==> {
                let lb = left_bounds->Some_0;
                let rb = right_bounds->Some_0;
                let pl = st_left->Some_0;
                let pr = st_right->Some_0;
                &&& lb.left() == minx && lb.right() == minx && lb.bottom() == miny + 1 && lb.top()
                    == maxy - 1
                &&& rb.left() == maxx && rb.right() == maxx && rb.bottom() == miny + 1 && rb.top()
                    == maxy - 1
                &&& st_left is Some && pl.left() == srect.left() && pl.bottom() == srect.bottom()
                    + 1 && pl.width() == 1 && pl.height() == srect.height() - 2
                &&& st_right is Some && pr.left() == srect.right() && pr.bottom()
                    == srect.bottom() + 1 && pr.width() == 1 && pr.height() == srect.height() - 2
                &&& forall|t: Vector2I|
                    #[trigger] lb.contains_spec(t) ==> part_fill(
                        random,
                        m3,
                        m4,
                        sm,
                        trans,
                        sorig,
                        pl.left(),
                        pl.bottom(),
                        pl.width(),
                        pl.height(),
                        start,
                        t,
                    )
                &&& forall|q: Vector2I|
                    map_at(m4, q) != map_at(m3, q) ==> #[trigger] lb.contains_spec(q)
                &&& forall|t: Vector2I|
                    #[trigger] rb.contains_spec(t) ==> part_fill(
                        random,
                        m4,
                        m5,
                        sm,
                        trans,
                        sorig,
                        pr.left(),
                        pr.bottom(),
                        pr.width(),
                        pr.height(),
                        start,
                        t,
                    )
                &&& forall|q: Vector2I|
                    map_at(m5, q) != map_at(m4, q) ==> #[trigger] rb.contains_spec(q)
            })
            // the interior phase
            &&& ((inner_bounds is Some) <==> (maxx - minx + 1 > 2 && maxy - miny + 1 > 2))
            &&& ((st_inner is Some) <==> (srect.width() > 2 && srect.height() > 2))
            &&& (inner_bounds is None ==> m6 == m5)
            &&& (inner_bounds is Some ==> {
                let ib = inner_bounds->Some_0;
                &&& ib.left() == minx + 1 && ib.right() == maxx - 1 && ib.bottom() == miny + 1
                    && ib.top() == maxy - 1
                &&& (st_inner is Some ==> {
                    let pc = st_inner->Some_0;
                    &&& pc.left() == srect.left() + 1 && pc.bottom() == srect.bottom() + 1
                        && pc.width() == srect.width() - 2 && pc.height() == srect.height() - 2
                    &&& forall|t: Vector2I|
                        #[trigger] ib.contains_spec(t) ==> part_fill(
                            random,
                            m5,
                            m6,
                            sm,
                            trans,
                            sorig,
                            pc.left(),
                            pc.bottom(),
                            pc.width(),
                            pc.height(),
                            start,
                            t,
                        )
                })
                &&& (st_inner is None ==> forall|t: Vector2I|
                    #[trigger] ib.contains_spec(t) ==> map_at(m6, t) == map_at(m5, t))
                &&& forall|q: Vector2I|
                    map_at(m6, q) != map_at(m5, q) ==> #[trigger] ib.contains_spec(q)
            })
        }),
    ensures
        nine_slice_post(m0, m6, start, end, stamp, random),
{
    let minx = vstd::math::min(start.x as int, end.x as int);
    let maxx = vstd::math::max(start.x as int, end.x as int);
    let miny = vstd::math::min(start.y as int, end.y as int);
    let maxy = vstd::math::max(start.y as int, end.y as int);
    let sm = stamp@;
    let trans = stamp.transform_spec();
    let c_lt = vec2(minx, maxy);
    let c_rt = vec2(maxx, maxy);
    let c_rb = vec2(maxx, miny);
    let c_lb = vec2(minx, miny);
    // one untouched-cell fact per phase, phrased per cell
    assert forall|q: Vector2I|
        #![trigger map_at(m6, q)]
        !(q == c_lt || q == c_rt || q == c_rb || q == c_lb) && !(minx < q.x < maxx && (q.y == miny
            || q.y == maxy)) && !(miny < q.y < maxy && (q.x == minx || q.x == maxx)) && !(minx
            < q.x < maxx && miny < q.y < maxy) implies map_at(m6, q) == map_at(m0, q) by {
        assert(map_at(m1, q) == map_at(m0, q));
        assert(map_at(m2, q) == map_at(m1, q)) by {
            if map_at(m2, q) != map_at(m1, q) {
                assert(top_bounds->Some_0.contains_spec(q));
            }
        }
        assert(map_at(m3, q) == map_at(m2, q)) by {
            if map_at(m3, q) != map_at(m2, q) {
                assert(bottom_bounds->Some_0.contains_spec(q));
            }
        }
        assert(map_at(m4, q) == map_at(m3, q)) by {
            if map_at(m4, q) != map_at(m3, q) {
                assert(left_bounds->Some_0.contains_spec(q));
            }
        }
        assert(map_at(m5, q) == map_at(m4, q)) by {
            if map_at(m5, q) != map_at(m4, q) {
                assert(right_bounds->Some_0.contains_spec(q));
            }
        }
        assert(map_at(m6, q) == map_at(m5, q)) by {
            if map_at(m6, q) != map_at(m5, q) {
                assert(inner_bounds->Some_0.contains_spec(q));
            }
        }
    }
    // the frame and short-axis clauses
    assert forall|q: Vector2I|
        !(#[trigger] crate::rect::between_spec(start, end, q)) implies map_at(m6, q) == map_at(
        m0,
        q,
    ) by {
        assert(map_at(m6, q) == map_at(m0, q));
    }
    if maxx - minx <= 1 {
        assert forall|q: Vector2I|
            map_at(m6, q) != #[trigger] map_at(m0, q) implies q.x == minx || q.x == maxx by {
            if q.x != minx && q.x != maxx {
                assert(map_at(m6, q) == map_at(m0, q));
            }
        }
    }
    if maxy - miny <= 1 {
        assert forall|q: Vector2I|
            map_at(m6, q) != #[trigger] map_at(m0, q) implies q.y == miny || q.y == maxy by {
            if q.y != miny && q.y != maxy {
                assert(map_at(m6, q) == map_at(m0, q));
            }
        }
    }
    // nothing satisfies the empty-stamp clause: the bounding rectangle has
    // witnesses
    assert(stamp@ != Map::<Vector2I, TileDefinitionHandle>::empty()) by {
        let k = choose|k: Vector2I| #[trigger] sm.dom().contains(k) && k.x == srect.left();
        assert(sm.dom().contains(k));
    }
    // each tight bounding rectangle of the stamp is this one
    assert forall|bs: TileRect|
        #[trigger] crate::source::is_bounding_rect_of(stamp@.dom(), Some(bs)) implies bs
        == srect by {
        let dom = sm.dom();
        let kl = choose|k: Vector2I| #[trigger] dom.contains(k) && k.x == srect.left();
        let kr = choose|k: Vector2I| #[trigger] dom.contains(k) && k.x == srect.right();
        let kb = choose|k: Vector2I| #[trigger] dom.contains(k) && k.y == srect.bottom();
        let kt = choose|k: Vector2I| #[trigger] dom.contains(k) && k.y == srect.top();
        let kl2 = choose|k: Vector2I| #[trigger] dom.contains(k) && k.x == bs.left();
        let kr2 = choose|k: Vector2I| #[trigger] dom.contains(k) && k.x == bs.right();
        let kb2 = choose|k: Vector2I| #[trigger] dom.contains(k) && k.y == bs.bottom();
        let kt2 = choose|k: Vector2I| #[trigger] dom.contains(k) && k.y == bs.top();
        assert(bs.contains_spec(kl) && bs.contains_spec(kr) && bs.contains_spec(kb)
            && bs.contains_spec(kt));
        assert(srect.contains_spec(kl2) && srect.contains_spec(kr2) && srect.contains_spec(kb2)
            && srect.contains_spec(kt2));
        TileRect::lemma_rect_eq(bs, srect);
    }
    // the corner cells keep the corner writes
    if maxx > minx && maxy > miny {
        assert forall|tc: Vector2I|
            #![trigger map_at(m6, tc)]
            (tc == c_lt || tc == c_rt || tc == c_rb || tc == c_lb) implies map_at(m6, tc)
            == map_at(m1, tc) by {
            assert(map_at(m2, tc) == map_at(m1, tc)) by {
                if map_at(m2, tc) != map_at(m1, tc) {
                    assert(top_bounds->Some_0.contains_spec(tc));
                }
            }
            assert(map_at(m3, tc) == map_at(m2, tc)) by {
                if map_at(m3, tc) != map_at(m2, tc) {
                    assert(bottom_bounds->Some_0.contains_spec(tc));
                }
            }
            assert(map_at(m4, tc) == map_at(m3, tc)) by {
                if map_at(m4, tc) != map_at(m3, tc) {
                    assert(left_bounds->Some_0.contains_spec(tc));
                }
            }
            assert(map_at(m5, tc) == map_at(m4, tc)) by {
                if map_at(m5, tc) != map_at(m4, tc) {
                    assert(right_bounds->Some_0.contains_spec(tc));
                }
            }
            assert(map_at(m6, tc) == map_at(m5, tc)) by {
                if map_at(m6, tc) != map_at(m5, tc) {
                    assert(inner_bounds->Some_0.contains_spec(tc));
                }
            }
        }
    }
    // the top edge carries its fill through the later phases
    assert forall|q: Vector2I|
        #![trigger q.x, q.y]
        minx < q.x < maxx && q.y == maxy && maxy != miny && maxx - minx + 1 > 2 && srect.width()
            > 2 implies part_fill(
        random,
        m0,
        m6,
        sm,
        trans,
        sorig,
        srect.left() + 1,
        srect.top(),
        srect.width() - 2,
        1,
        start,
        q,
    ) by {
        let tb = top_bounds->Some_0;
        assert(tb.contains_spec(q));
        assert(map_at(m1, q) == map_at(m0, q));
        assert(map_at(m3, q) == map_at(m2, q)) by {
            if map_at(m3, q) != map_at(m2, q) {
                assert(bottom_bounds->Some_0.contains_spec(q));
            }
        }
        assert(map_at(m4, q) == map_at(m3, q)) by {
            if map_at(m4, q) != map_at(m3, q) {
                assert(left_bounds->Some_0.contains_spec(q));
            }
        }
        assert(map_at(m5, q) == map_at(m4, q)) by {
            if map_at(m5, q) != map_at(m4, q) {
                assert(right_bounds->Some_0.contains_spec(q));
            }
        }
        assert(map_at(m6, q) == map_at(m5, q)) by {
            if map_at(m6, q) != map_at(m5, q) {
                assert(inner_bounds->Some_0.contains_spec(q));
            }
        }
    }
    // the bottom edge likewise
    assert forall|q: Vector2I|
        #![trigger q.x, q.y]
        minx < q.x < maxx && q.y == miny && maxy != miny && maxx - minx + 1 > 2 && srect.width()
            > 2 implies part_fill(
        random,
        m0,
        m6,
        sm,
        trans,
        sorig,
        srect.left() + 1,
        srect.bottom(),
        srect.width() - 2,
        1,
        start,
        q,
    ) by {
        let bb = bottom_bounds->Some_0;
        assert(bb.contains_spec(q));
        assert(map_at(m1, q) == map_at(m0, q));
        assert(map_at(m2, q) == map_at(m1, q)) by {
            if map_at(m2, q) != map_at(m1, q) {
                assert(top_bounds->Some_0.contains_spec(q));
            }
        }
        assert(map_at(m4, q) == map_at(m3, q)) by {
            if map_at(m4, q) != map_at(m3, q) {
                assert(left_bounds->Some_0.contains_spec(q));
            }
        }
        assert(map_at(m5, q) == map_at(m4, q)) by {
            if map_at(m5, q) != map_at(m4, q) {
                assert(right_bounds->Some_0.contains_spec(q));
            }
        }
        assert(map_at(m6, q) == map_at(m5, q)) by {
            if map_at(m6, q) != map_at(m5, q) {
                assert(inner_bounds->Some_0.contains_spec(q));
            }
        }
    }
    // a too-narrow stamp leaves the horizontal edges alone
    assert forall|q: Vector2I|
        #![trigger q.x, q.y]
        minx < q.x < maxx && (q.y == miny || q.y == maxy) && maxx - minx + 1 > 2 && srect.width()
            <= 2 implies map_at(m6, q) == map_at(m0, q) by {
        assert(top_bounds is None);
        assert(map_at(m1, q) == map_at(m0, q));
        assert(map_at(m4, q) == map_at(m3, q)) by {
            if map_at(m4, q) != map_at(m3, q) {
                assert(left_bounds->Some_0.contains_spec(q));
            }
        }
        assert(map_at(m5, q) == map_at(m4, q)) by {
            if map_at(m5, q) != map_at(m4, q) {
                assert(right_bounds->Some_0.contains_spec(q));
            }
        }
        assert(map_at(m6, q) == map_at(m5, q)) by {
            if map_at(m6, q) != map_at(m5, q) {
                assert(inner_bounds->Some_0.contains_spec(q));
            }
        }
    }
    // the left and right edges likewise
    assert forall|q: Vector2I|
        #![trigger q.x, q.y]
        miny < q.y < maxy && q.x == minx && minx != maxx && maxy - miny + 1 > 2 && srect.height()
            > 2 implies part_fill(
        random,
        m0,
        m6,
        sm,
        trans,
        sorig,
        srect.left(),
        srect.bottom() + 1,
        1,
        srect.height() - 2,
        start,
        q,
    ) by {
        let lb = left_bounds->Some_0;
        assert(lb.contains_spec(q));
        assert(map_at(m1, q) == map_at(m0, q));
        assert(map_at(m2, q) == map_at(m1, q)) by {
            if map_at(m2, q) != map_at(m1, q) {
                assert(top_bounds->Some_0.contains_spec(q));
            }
        }
        assert(map_at(m3, q) == map_at(m2, q)) by {
            if map_at(m3, q) != map_at(m2, q) {
                assert(bottom_bounds->Some_0.contains_spec(q));
            }
        }
        assert(map_at(m5, q) == map_at(m4, q)) by {
            if map_at(m5, q) != map_at(m4, q) {
                assert(right_bounds->Some_0.contains_spec(q));
            }
        }
        assert(map_at(m6, q) == map_at(m5, q)) by {
            if map_at(m6, q) != map_at(m5, q) {
                assert(inner_bounds->Some_0.contains_spec(q));
            }
        }
    }
    assert forall|q: Vector2I|
        #![trigger q.x, q.y]
        miny < q.y < maxy && q.x == maxx && minx != maxx && maxy - miny + 1 > 2 && srect.height()
            > 2 implies part_fill(
        random,
        m0,
        m6,
        sm,
        trans,
        sorig,
        srect.right(),
        srect.bottom() + 1,
        1,
        srect.height() - 2,
        start,
        q,
    ) by {
        let rb = right_bounds->Some_0;
        assert(rb.contains_spec(q));
        assert(map_at(m1, q) == map_at(m0, q));
        assert(map_at(m2, q) == map_at(m1, q)) by {
            if map_at(m2, q) != map_at(m1, q) {
                assert(top_bounds->Some_0.contains_spec(q));
            }
        }
        assert(map_at(m3, q) == map_at(m2, q)) by {
            if map_at(m3, q) != map_at(m2, q) {
                assert(bottom_bounds->Some_0.contains_spec(q));
            }
        }
        assert(map_at(m4, q) == map_at(m3, q)) by {
            if map_at(m4, q) != map_at(m3, q) {
                assert(left_bounds->Some_0.contains_spec(q));
            }
        }
        assert(map_at(m6, q) == map_at(m5, q)) by {
            if map_at(m6, q) != map_at(m5, q) {
                assert(inner_bounds->Some_0.contains_spec(q));
            }
        }
    }
    // a too-short stamp leaves the vertical edges alone
    assert forall|q: Vector2I|
        #![trigger q.x, q.y]
        miny < q.y < maxy && (q.x == minx || q.x == maxx) && maxy - miny + 1 > 2 && srect.height()
            <= 2 implies map_at(m6, q) == map_at(m0, q) by {
        assert(left_bounds is None);
        assert(map_at(m1, q) == map_at(m0, q));
        assert(map_at(m2, q) == map_at(m1, q)) by {
            if map_at(m2, q) != map_at(m1, q) {
                assert(top_bounds->Some_0.contains_spec(q));
            }
        }
        assert(map_at(m3, q) == map_at(m2, q)) by {
            if map_at(m3, q) != map_at(m2, q) {
                assert(bottom_bounds->Some_0.contains_spec(q));
            }
        }
        assert(map_at(m6, q) == map_at(m5, q)) by {
            if map_at(m6, q) != map_at(m5, q) {
                assert(inner_bounds->Some_0.contains_spec(q));
            }
        }
    }
    // the interior, from the stamp's center part
    assert forall|q: Vector2I|
        #![trigger q.x, q.y]
        minx < q.x < maxx && miny < q.y < maxy implies (if srect.width() > 2 && srect.height()
            > 2 {
        part_fill(
            random,
            m0,
            m6,
            sm,
            trans,
            sorig,
            srect.left() + 1,
            srect.bottom() + 1,
            srect.width() - 2,
            srect.height() - 2,
            start,
            q,
        )
    } else {
        map_at(m6, q) == map_at(m0, q)
    }) by {
        assert(map_at(m1, q) == map_at(m0, q));
        assert(map_at(m2, q) == map_at(m1, q)) by {
            if map_at(m2, q) != map_at(m1, q) {
                assert(top_bounds->Some_0.contains_spec(q));
            }
        }
        assert(map_at(m3, q) == map_at(m2, q)) by {
            if map_at(m3, q) != map_at(m2, q) {
                assert(bottom_bounds->Some_0.contains_spec(q));
            }
        }
        assert(map_at(m4, q) == map_at(m3, q)) by {
            if map_at(m4, q) != map_at(m3, q) {
                assert(left_bounds->Some_0.contains_spec(q));
            }
        }
        assert(map_at(m5, q) == map_at(m4, q)) by {
            if map_at(m5, q) != map_at(m4, q) {
                assert(right_bounds->Some_0.contains_spec(q));
            }
        }
        assert(inner_bounds is Some && inner_bounds->Some_0.contains_spec(q));
    }
    assert(nine_slice_post(m0, m6, start, end, stamp, random)) by {
        assert forall|bs: TileRect|
            #[trigger] crate::source::is_bounding_rect_of(stamp@.dom(), Some(bs)) implies bs
            == srect && repeat_region(bs, start, end).origin == sorig by {}
    }
}

/// Whether two cells are 4-connected neighbours.
pub open spec fn adjacent(p: Vector2I, q: Vector2I) -> bool {
    ||| q.x == p.x && (q.y == p.y + 1 || q.y == p.y - 1)
    ||| q.y == p.y && (q.x == p.x + 1 || q.x == p.x - 1)
}

/// Whether a flood fill that writes into a diff that already holds
/// `diff0`, over the tiles `tiles`, may enter the cell `p`: the cell lies
/// in the fill bounds, was not written before this fill pass, and holds
/// the same tile as the seed.
pub open spec fn fill_open(
    tiles: Map<Vector2I, TileDefinitionHandle>,
    diff0: Map<Vector2I, Option<RotTileHandle>>,
    allowed: Option<TileDefinitionHandle>,
    b: TileRect,
    p: Vector2I,
) -> bool {
    b.contains_spec(p) && !diff0.contains_key(p) && map_at(tiles, p) == allowed
}

/// Whether `path` is a 4-connected walk through cells that a flood fill
/// may enter.
pub open spec fn is_fill_path(
    tiles: Map<Vector2I, TileDefinitionHandle>,
    diff0: Map<Vector2I, Option<RotTileHandle>>,
    allowed: Option<TileDefinitionHandle>,
    b: TileRect,
    path: Seq<Vector2I>,
) -> bool {
    &&& path.len() > 0
    &&& forall|i: int| 0 <= i < path.len() ==> fill_open(tiles, diff0, allowed, b, #[trigger] path[i])
    &&& forall|i: int| 0 <= i < path.len() - 1 ==> adjacent(#[trigger] path[i], path[i + 1])
}

/// Whether `p` is reachable from the seed by a 4-connected walk through
/// cells that a flood fill may enter.
#[verifier::opaque]
pub open spec fn fill_reachable(
    tiles: Map<Vector2I, TileDefinitionHandle>,
    diff0: Map<Vector2I, Option<RotTileHandle>>,
    allowed: Option<TileDefinitionHandle>,
    b: TileRect,
    seed: Vector2I,
    p: Vector2I,
) -> bool {
    exists|path: Seq<Vector2I>|
        is_fill_path(tiles, diff0, allowed, b, path) && path[0] == seed && path.last() == p
}

/// The cells that a flood fill from `seed` writes: those reachable from
/// the seed through cells holding the seed's tile, within the bounds `b`.
pub open spec fn flood_covers(
    tiles: Map<Vector2I, TileDefinitionHandle>,
    diff0: Map<Vector2I, Option<RotTileHandle>>,
    b: TileRect,
    seed: Vector2I,
    q: Vector2I,
) -> bool {
    fill_reachable(tiles, diff0, map_at(tiles, seed), b, seed, q)
}

/// An enterable seed is reachable from itself.
proof fn lemma_reach_base(
    tiles: Map<Vector2I, TileDefinitionHandle>,
    diff0: Map<Vector2I, Option<RotTileHandle>>,
    allowed: Option<TileDefinitionHandle>,
    b: TileRect,
    seed: Vector2I,
)
    requires
        fill_open(tiles, diff0, allowed, b, seed),
    ensures
        fill_reachable(tiles, diff0, allowed, b, seed, seed),
{
    reveal(fill_reachable);
    let path = seq![seed];
    assert(is_fill_path(tiles, diff0, allowed, b, path) && path[0] == seed && path.last() == seed);
}

/// Reachability extends along a step to an adjacent enterable cell.
proof fn lemma_reach_extend(
    tiles: Map<Vector2I, TileDefinitionHandle>,
    diff0: Map<Vector2I, Option<RotTileHandle>>,
    allowed: Option<TileDefinitionHandle>,
    b: TileRect,
    seed: Vector2I,
    p: Vector2I,
    n: Vector2I,
)
    requires
        fill_reachable(tiles, diff0, allowed, b, seed, p),
        adjacent(p, n),
        fill_open(tiles, diff0, allowed, b, n),
    ensures
        fill_reachable(tiles, diff0, allowed, b, seed, n),
{
    reveal(fill_reachable);
    let path = choose|path: Seq<Vector2I>|
        is_fill_path(tiles, diff0, allowed, b, path) && path[0] == seed && path.last() == p;
    let path2 = path + seq![n];
    assert(is_fill_path(tiles, diff0, allowed, b, path2)) by {
        assert forall|i: int| 0 <= i < path2.len() implies fill_open(
            tiles,
            diff0,
            allowed,
            b,
            #[trigger] path2[i],
        ) by {
            if i < path.len() {
                assert(path2[i] == path[i]);
            } else {
                assert(path2[i] == n);
            }
        }
        assert forall|i: int| 0 <= i < path2.len() - 1 implies adjacent(
            #[trigger] path2[i],
            path2[i + 1],
        ) by {
            if i < path.len() - 1 {
                assert(path2[i] == path[i] && path2[i + 1] == path[i + 1]);
            } else {
                assert(path2[i] == p && path2[i + 1] == n);
            }
        }
    }
    assert(path2[0] == seed && path2.last() == n);
}

/// Every reachable cell is enterable, and so is the seed.
proof fn lemma_reach_open(
    tiles: Map<Vector2I, TileDefinitionHandle>,
    diff0: Map<Vector2I, Option<RotTileHandle>>,
    allowed: Option<TileDefinitionHandle>,
    b: TileRect,
    seed: Vector2I,
    q: Vector2I,
)
    requires
        fill_reachable(tiles, diff0, allowed, b, seed, q),
    ensures
        fill_open(tiles, diff0, allowed, b, q),
        fill_open(tiles, diff0, allowed, b, seed),
{
    reveal(fill_reachable);
    let path = choose|path: Seq<Vector2I>|
        is_fill_path(tiles, diff0, allowed, b, path) && path[0] == seed && path.last() == q;
    assert(fill_open(tiles, diff0, allowed, b, path[0]));
    assert(fill_open(tiles, diff0, allowed, b, path[path.len() - 1]));
}

/// A set that holds the seed and is closed under stepping to adjacent
/// enterable cells holds every reachable cell.
proof fn lemma_reach_covered(
    tiles: Map<Vector2I, TileDefinitionHandle>,
    diff0: Map<Vector2I, Option<RotTileHandle>>,
    allowed: Option<TileDefinitionHandle>,
    b: TileRect,
    written: Set<Vector2I>,
    seed: Vector2I,
    q: Vector2I,
)
    requires
        fill_reachable(tiles, diff0, allowed, b, seed, q),
        written.contains(seed),
        forall|p: Vector2I, n: Vector2I|
            #[trigger] written.contains(p) && #[trigger] adjacent(p, n) && fill_open(
                tiles,
                diff0,
                allowed,
                b,
                n,
            ) ==> written.contains(n),
    ensures
        written.contains(q),
{
    reveal(fill_reachable);
    let path = choose|path: Seq<Vector2I>|
        is_fill_path(tiles, diff0, allowed, b, path) && path[0] == seed && path.last() == q;
    lemma_fill_path_covered(tiles, diff0, allowed, b, written, path);
}

/// A set that holds the seed and is closed under stepping to adjacent
/// enterable cells holds every cell that a fill path can reach.
proof fn lemma_fill_path_covered(
    tiles: Map<Vector2I, TileDefinitionHandle>,
    diff0: Map<Vector2I, Option<RotTileHandle>>,
    allowed: Option<TileDefinitionHandle>,
    b: TileRect,
    written: Set<Vector2I>,
    path: Seq<Vector2I>,
)
    requires
        is_fill_path(tiles, diff0, allowed, b, path),
        written.contains(path[0]),
        forall|q: Vector2I, n: Vector2I|
            #[trigger] written.contains(q) && #[trigger] adjacent(q, n) && fill_open(
                tiles,
                diff0,
                allowed,
                b,
                n,
            ) ==> written.contains(n),
    ensures
        written.contains(path.last()),
    decreases path.len(),
{
    if path.len() > 1 {
        let shorter = path.drop_last();
        assert(is_fill_path(tiles, diff0, allowed, b, shorter)) by {
            assert forall|i: int| 0 <= i < shorter.len() implies fill_open(
                tiles,
                diff0,
                allowed,
                b,
                #[trigger] shorter[i],
            ) by {
                assert(shorter[i] == path[i]);
            }
            assert forall|i: int| 0 <= i < shorter.len() - 1 implies adjacent(
                #[trigger] shorter[i],
                shorter[i + 1],
            ) by {
                assert(shorter[i] == path[i] && shorter[i + 1] == path[i + 1]);
            }
        }
        lemma_fill_path_covered(tiles, diff0, allowed, b, written, shorter);
        assert(adjacent(path[path.len() - 2], path[path.len() - 1]));
        assert(fill_open(tiles, diff0, allowed, b, path[path.len() - 1]));
    }
}

/// Re-running a flood fill with the same seed over the diff it produced
/// changes nothing: the first pass wrote the seed's component, so no cell
/// is open for a second pass.
pub proof fn lemma_flood_fill_idempotent(
    tiles: Map<Vector2I, TileDefinitionHandle>,
    m0: Map<Vector2I, Option<RotTileHandle>>,
    m1: Map<Vector2I, Option<RotTileHandle>>,
    m2: Map<Vector2I, Option<RotTileHandle>>,
    b: TileRect,
    seed: Vector2I,
)
    requires
        forall|q: Vector2I| #[trigger] flood_covers(tiles, m0, b, seed, q) ==> m1.contains_key(q),
        forall|q: Vector2I|
            !(#[trigger] flood_covers(tiles, m0, b, seed, q)) ==> map_at(m1, q) == map_at(m0, q),
        forall|q: Vector2I|
            !(#[trigger] flood_covers(tiles, m1, b, seed, q)) ==> map_at(m2, q) == map_at(m1, q),
    ensures
        forall|q: Vector2I| #[trigger] map_at(m2, q) == map_at(m1, q),
{
    let allowed = map_at(tiles, seed);
    assert forall|q: Vector2I| !(#[trigger] flood_covers(tiles, m1, b, seed, q)) by {
        if flood_covers(tiles, m1, b, seed, q) {
            lemma_reach_open(tiles, m1, allowed, b, seed, q);
            assert(!m1.contains_key(seed));
            // yet the seed must be in the first pass's diff: either the
            // first pass entered it, or it was blocked all along
            if fill_open(tiles, m0, allowed, b, seed) {
                lemma_reach_base(tiles, m0, allowed, b, seed);
                assert(flood_covers(tiles, m0, b, seed, seed));
                assert(m1.contains_key(seed));
            } else {
                // the seed was blocked or mismatched before the first pass;
                // only the blocking can have changed, and only by growing
                assert(b.contains_spec(seed));
                assert(!flood_covers(tiles, m0, b, seed, seed)) by {
                    if flood_covers(tiles, m0, b, seed, seed) {
                        lemma_reach_open(tiles, m0, allowed, b, seed, seed);
                    }
                }
                assert(map_at(m1, seed) == map_at(m0, seed));
                assert(m0.contains_key(seed));
                assert(m1.contains_key(seed));
            }
        }
    }
    assert forall|q: Vector2I| #[trigger] map_at(m2, q) == map_at(m1, q) by {
        assert(!flood_covers(tiles, m1, b, seed, q));
    }
}

/// Whether two optional handles are equal.
fn option_handle_eq(a: &Option<TileDefinitionHandle>, b: &Option<TileDefinitionHandle>) -> (r:
    bool)
    ensures
        r == (*a == *b),
{
    match (a, b) {
        (None, None) => true,
        (Some(x), Some(y)) => crate::grid_map::GridKey::key_eq(x, y),
        _ => false,
    }
}

impl TransTilesUpdate {
    /// Draws the given stamp on the tile map, writing one cell per stamp
    /// tile at the stamp position moved by `origin`.
    pub fn draw_tiles(&mut self, origin: Vector2I, brush: &Stamp)
        requires
            crate::source::vec_small(origin),
        ensures
            forall|k: Vector2I|
                #[trigger] brush@.contains_key(k) ==> final(self)@.contains_key(translated(k, origin))
                    && final(self)@[translated(k, origin)] == Some(
                    (brush.transform_spec(), brush@[k]),
                ),
            forall|q: Vector2I|
                (forall|k: Vector2I| #[trigger] brush@.contains_key(k) ==> q != translated(k, origin))
                    ==> map_at(final(self)@, q) == map_at(old(self)@, q),
    {
        let trans = brush.transformation();
        brush.observe();
        let ghost s = brush.entries_view();
        let n = brush.len();
        let mut i: usize = 0;
        while i < n
            invariant
                i <= n,
                n == s.len(),
                s == brush.entries_view(),
                crate::source::vec_small(origin),
                trans == brush.transform_spec(),
                crate::grid_map::distinct_keys(s),
                forall|j: int|
                    0 <= j < n ==> crate::source::vec_small((#[trigger] s[j]).0)
                        && brush@.contains_key(s[j].0) && brush@[s[j].0] == s[j].1,
                forall|j: int|
                    0 <= j < i ==> self@.contains_key(translated((#[trigger] s[j]).0, origin))
                        && self@[translated(s[j].0, origin)] == Some((trans, s[j].1)),
                forall|q: Vector2I|
                    (forall|j: int| 0 <= j < i ==> q != translated((#[trigger] s[j]).0, origin))
                        ==> map_at(self@, q) == map_at(old(self)@, q),
            decreases n - i,
        {
            let e = brush.entry_at(i);
            let target = Vector2I { x: origin.x + e.0.x, y: origin.y + e.0.y };
            proof {
                assert(target == translated(s[i as int].0, origin));
            }
            self.insert(target, Some((trans, e.1)));
            i = i + 1;
        }
        proof {
            assert forall|k: Vector2I| #[trigger] brush@.contains_key(k) implies self@.contains_key(
                translated(k, origin),
            ) && self@[translated(k, origin)] == Some((trans, brush@[k])) by {
                let j = choose|j: int| 0 <= j < s.len() && (#[trigger] s[j]).0 == k;
                assert(self@.contains_key(translated(s[j].0, origin)));
            }
            assert forall|q: Vector2I|
                (forall|k: Vector2I| #[trigger] brush@.contains_key(k) ==> q != translated(
                    k,
                    origin,
                )) implies map_at(self@, q) == map_at(old(self)@, q) by {
                assert forall|j: int| 0 <= j < n implies q != translated(
                    (#[trigger] s[j]).0,
                    origin,
                ) by {
                    assert(brush@.contains_key(s[j].0));
                }
            }
        }
    }

    /// Erases the tiles under the given stamp: every cell covered by the
    /// stamp at `origin` is marked for removal.
    pub fn erase_stamp(&mut self, origin: Vector2I, brush: &Stamp)
        requires
            crate::source::vec_small(origin),
        ensures
            forall|k: Vector2I|
                #[trigger] brush@.contains_key(k) ==> final(self)@.contains_key(translated(k, origin))
                    && final(self)@[translated(k, origin)] == None::<RotTileHandle>,
            forall|q: Vector2I|
                (forall|k: Vector2I| #[trigger] brush@.contains_key(k) ==> q != translated(k, origin))
                    ==> map_at(final(self)@, q) == map_at(old(self)@, q),
    {
        brush.observe();
        let ghost s = brush.entries_view();
        let n = brush.len();
        let mut i: usize = 0;
        while i < n
            invariant
                i <= n,
                n == s.len(),
                s == brush.entries_view(),
                crate::source::vec_small(origin),
                crate::grid_map::distinct_keys(s),
                forall|j: int|
                    0 <= j < n ==> crate::source::vec_small((#[trigger] s[j]).0)
                        && brush@.contains_key(s[j].0),
                forall|j: int|
                    0 <= j < i ==> self@.contains_key(translated((#[trigger] s[j]).0, origin))
                        && self@[translated(s[j].0, origin)] == None::<RotTileHandle>,
                forall|q: Vector2I|
                    (forall|j: int| 0 <= j < i ==> q != translated((#[trigger] s[j]).0, origin))
                        ==> map_at(self@, q) == map_at(old(self)@, q),
            decreases n - i,
        {
            let e = brush.entry_at(i);
            let target = Vector2I { x: origin.x + e.0.x, y: origin.y + e.0.y };
            proof {
                assert(target == translated(s[i as int].0, origin));
            }
            self.insert(target, None);
            i = i + 1;
        }
        proof {
            assert forall|k: Vector2I| #[trigger] brush@.contains_key(k) implies self@.contains_key(
                translated(k, origin),
            ) && self@[translated(k, origin)] == None::<RotTileHandle> by {
                let j = choose|j: int| 0 <= j < s.len() && (#[trigger] s[j]).0 == k;
                assert(self@.contains_key(translated(s[j].0, origin)));
            }
            assert forall|q: Vector2I|
                (forall|k: Vector2I| #[trigger] brush@.contains_key(k) ==> q != translated(
                    k,
                    origin,
                )) implies map_at(self@, q) == map_at(old(self)@, q) by {
                assert forall|j: int| 0 <= j < n implies q != translated(
                    (#[trigger] s[j]).0,
                    origin,
                ) by {
                    assert(brush@.contains_key(s[j].0));
                }
            }
        }
    }

    /// Erases the given tile.
    pub fn erase(&mut self, position: Vector2I)
        requires
            vec_ok(position),
        ensures
            final(self)@ == old(self)@.insert(position, None::<RotTileHandle>),
    {
        self.insert(position, None);
    }

    /// Fills the tiles at the given point using tiles from the given
    /// source. The fill covers exactly the 4-connected component of cells
    /// that hold the same tile as the seed cell, within the bounding
    /// rectangle of the tile container extended to include the seed; cells
    /// already written into this diff are neither overwritten nor crossed.
    /// Each covered cell receives the source's tile for its offset from
    /// the seed.
    #[verifier::rlimit(100)]
    #[verifier::spinoff_prover]
    pub fn flood_fill<S: TileSource>(&mut self, tiles: &Tiles, start_point: Vector2I, brush: &S)
        requires
            brush.wf(),
            vec_ok(start_point),
        ensures
            forall|b: TileRect|
                #[trigger] crate::source::is_bounding_rect_of(
                    tiles@.dom().insert(start_point),
                    Some(b),
                ) ==> (forall|q: Vector2I|
                    #[trigger] flood_covers(tiles@, old(self)@, b, start_point, q)
                        ==> final(self)@.contains_key(q) && exists|r: Option<TileDefinitionHandle>|
                        #[trigger] brush.valid_at(shifted(q, start_point), r) && final(self)@[q]
                            == trans_value(brush.transform_spec(), r)) && (forall|q: Vector2I|
                    !(#[trigger] flood_covers(tiles@, old(self)@, b, start_point, q)) ==> map_at(
                        final(self)@,
                        q,
                    ) == map_at(old(self)@, q)),
    {
        tiles.observe();
        let mut bounds = tiles.bounding_rect();
        let ghost bopt0 = bounds@;
        let ghost dom2 = tiles@.dom().insert(start_point);
        bounds.push(start_point);
        let b = bounds.0.unwrap();
        b.observe();
        proof {
            match bopt0 {
                None => {
                    assert(dom2 =~= Set::<Vector2I>::empty().insert(start_point));
                    assert(dom2.contains(start_point) && start_point.x == b.left()
                        && start_point.x == b.right() && start_point.y == b.bottom()
                        && start_point.y == b.top());
                }
                Some(o) => {
                    let kl = choose|k: Vector2I|
                        #[trigger] tiles@.dom().contains(k) && k.x == o.left();
                    let kr = choose|k: Vector2I|
                        #[trigger] tiles@.dom().contains(k) && k.x == o.right();
                    let kb = choose|k: Vector2I|
                        #[trigger] tiles@.dom().contains(k) && k.y == o.bottom();
                    let kt = choose|k: Vector2I|
                        #[trigger] tiles@.dom().contains(k) && k.y == o.top();
                    assert(dom2.contains(kl) && dom2.contains(kr) && dom2.contains(kb)
                        && dom2.contains(kt) && dom2.contains(start_point));
                    assert(exists|k: Vector2I| #[trigger] dom2.contains(k) && k.x == b.left()) by {
                        if start_point.x < o.left() {
                            assert(dom2.contains(start_point) && start_point.x == b.left());
                        } else {
                            assert(dom2.contains(kl) && kl.x == b.left());
                        }
                    }
                    assert(exists|k: Vector2I| #[trigger] dom2.contains(k) && k.x == b.right())
                        by {
                        if start_point.x > o.right() {
                            assert(dom2.contains(start_point) && start_point.x == b.right());
                        } else {
                            assert(dom2.contains(kr) && kr.x == b.right());
                        }
                    }
                    assert(exists|k: Vector2I| #[trigger] dom2.contains(k) && k.y == b.bottom())
                        by {
                        if start_point.y < o.bottom() {
                            assert(dom2.contains(start_point) && start_point.y == b.bottom());
                        } else {
                            assert(dom2.contains(kb) && kb.y == b.bottom());
                        }
                    }
                    assert(exists|k: Vector2I| #[trigger] dom2.contains(k) && k.y == b.top()) by {
                        if start_point.y > o.top() {
                            assert(dom2.contains(start_point) && start_point.y == b.top());
                        } else {
                            assert(dom2.contains(kt) && kt.y == b.top());
                        }
                    }
                    assert forall|k: Vector2I| #[trigger] dom2.contains(k) implies b.contains_spec(
                        k,
                    ) by {
                        if k != start_point {
                            assert(tiles@.dom().contains(k));
                            assert(o.contains_spec(k));
                        }
                    }
                }
            }
            assert(crate::source::is_bounding_rect_of(dom2, Some(b)));
        }
        let allowed = tiles.get_at(start_point);
        let trans = brush.transformation();
        let ghost tm = tiles@;
        let ghost diff0 = self@;
        let ghost bcells = b.cells();
        proof {
            b.lemma_cells_finite();
        }
        let mut stack: Vec<Vector2I> = Vec::new();
        stack.push(start_point);
        proof {
            assert(stack@[0] == start_point);
            assert(stack@.contains(start_point));
        }
        let ghost mut written: Set<Vector2I> = Set::empty();
        let ghost mut written0: Set<Vector2I> = Set::empty();
        while stack.len() != 0
            invariant
                brush.wf(),
                vec_ok(start_point),
                trans == brush.transform_spec(),
                tm == tiles@,
                diff0 == old(self)@,
                allowed == map_at(tm, start_point),
                bcells == b.cells(),
                bcells.finite(),
                1 <= b.width() && 1 <= b.height(),
                crate::rect::coord_ok(b.left()) && crate::rect::coord_ok(b.right()),
                crate::rect::coord_ok(b.bottom()) && crate::rect::coord_ok(b.top()),
                b.contains_spec(start_point),
                written.finite(),
                written.len() <= bcells.len(),
                forall|q: Vector2I| #[trigger] written.contains(q) ==> bcells.contains(q),
                forall|q: Vector2I|
                    #[trigger] written.contains(q) ==> fill_open(tm, diff0, allowed, b, q)
                        && fill_reachable(tm, diff0, allowed, b, start_point, q)
                        && self@.contains_key(q) && exists|r: Option<TileDefinitionHandle>|
                        #[trigger] brush.valid_at(shifted(q, start_point), r) && self@[q]
                            == trans_value(trans, r),
                forall|q: Vector2I|
                    !(#[trigger] written.contains(q)) ==> map_at(self@, q) == map_at(diff0, q),
                forall|i: int|
                    0 <= i < stack@.len() ==> b.contains_spec(#[trigger] stack@[i]) && (stack@[i]
                        == start_point || exists|p: Vector2I|
                        #[trigger] written.contains(p) && adjacent(p, stack@[i])),
                forall|q: Vector2I, n: Vector2I|
                    #[trigger] written.contains(q) && #[trigger] adjacent(q, n) && fill_open(
                        tm,
                        diff0,
                        allowed,
                        b,
                        n,
                    ) ==> stack@.contains(n) || written.contains(n),
                written.contains(start_point) || stack@.contains(start_point) || !fill_open(
                    tm,
                    diff0,
                    allowed,
                    b,
                    start_point,
                ),
            decreases bcells.len() - written.len(), stack@.len(),
        {
            let ghost stack0 = stack@;
            let position = stack.pop().unwrap();
            proof {
                assert(stack0[stack0.len() - 1] == position);
                assert(b.contains_spec(position));
            }
            let definition = tiles.get_at(position);
            let eligible = option_handle_eq(&definition, &allowed);
            let already = self.contains_key(&position);
            if eligible && !already {
                proof {
                    assert(!written.contains(position));
                    assert(map_at(self@, position) == map_at(diff0, position));
                    assert(!diff0.contains_key(position));
                    assert(fill_open(tm, diff0, allowed, b, position));
                }
                let offset = Vector2I {
                    x: position.x - start_point.x,
                    y: position.y - start_point.y,
                };
                proof {
                    assert(offset == shifted(position, start_point));
                }
                let r = brush.get_at(offset);
                let value = match r {
                    Some(h) => Some((trans, h)),
                    None => None,
                };
                let ghost pre = self@;
                self.insert(position, value);
                proof {
                    if position == start_point {
                        lemma_reach_base(tm, diff0, allowed, b, start_point);
                    } else {
                        let p = choose|p: Vector2I|
                            #[trigger] written.contains(p) && adjacent(p, position);
                        lemma_reach_extend(tm, diff0, allowed, b, start_point, p, position);
                    }
                    written0 = written;
                    written = written.insert(position);
                    assert(written.contains(position));
                    assert forall|q: Vector2I| #[trigger] written.contains(q) implies bcells.contains(
                        q,
                    ) by {}
                    vstd::set_lib::lemma_len_subset(written, bcells);
                    assert(brush.valid_at(shifted(position, start_point), r));
                    assert(self@[position] == trans_value(trans, r));
                }
                let n1 = Vector2I { x: position.x - 1, y: position.y };
                let n2 = Vector2I { x: position.x + 1, y: position.y };
                let n3 = Vector2I { x: position.x, y: position.y - 1 };
                let n4 = Vector2I { x: position.x, y: position.y + 1 };
                if b.contains(n1) {
                    stack.push(n1);
                }
                if b.contains(n2) {
                    stack.push(n2);
                }
                if b.contains(n3) {
                    stack.push(n3);
                }
                if b.contains(n4) {
                    stack.push(n4);
                }
                proof {
                    let stack1 = stack@;
                    let base = stack0.len() - 1;
                    let c1 = b.contains_spec(n1);
                    let c2 = b.contains_spec(n2);
                    let c3 = b.contains_spec(n3);
                    // the pushed neighbours sit on top of the remaining stack
                    if b.contains_spec(n1) {
                        assert(stack1[base] == n1);
                        assert(stack1.contains(n1));
                    }
                    if b.contains_spec(n2) {
                        let i = base + if c1 {
                            1int
                        } else {
                            0int
                        };
                        assert(stack1[i] == n2);
                        assert(stack1.contains(n2));
                    }
                    if b.contains_spec(n3) {
                        let i = base + if c1 {
                            1int
                        } else {
                            0int
                        } + if c2 {
                            1int
                        } else {
                            0int
                        };
                        assert(stack1[i] == n3);
                        assert(stack1.contains(n3));
                    }
                    if b.contains_spec(n4) {
                        let i = base + if c1 {
                            1int
                        } else {
                            0int
                        } + if c2 {
                            1int
                        } else {
                            0int
                        } + if c3 {
                            1int
                        } else {
                            0int
                        };
                        assert(stack1[i] == n4);
                        assert(stack1.contains(n4));
                    }
                    // every new stack element is an in-bounds neighbour of the
                    // written cell, and the dropped cell is now written
                    assert forall|i: int| 0 <= i < stack1.len() implies b.contains_spec(
                        #[trigger] stack1[i],
                    ) && (stack1[i] == start_point || exists|p: Vector2I|
                        #[trigger] written.contains(p) && adjacent(p, stack1[i])) by {
                        if i < stack0.len() - 1 {
                            assert(stack1[i] == stack0[i]);
                            if stack0[i] != start_point {
                                let p = choose|p: Vector2I|
                                    #[trigger] written0.contains(p) && adjacent(p, stack0[i]);
                                assert(written.contains(p));
                            }
                        } else {
                            assert(adjacent(position, stack1[i]));
                            assert(written.contains(position));
                        }
                    }
                    assert forall|q: Vector2I, n: Vector2I|
                        #[trigger] written.contains(q) && #[trigger] adjacent(q, n) && fill_open(
                            tm,
                            diff0,
                            allowed,
                            b,
                            n,
                        ) implies stack1.contains(n) || written.contains(n) by {
                        if q == position {
                            // the four in-bounds neighbours were pushed
                            assert(n == n1 || n == n2 || n == n3 || n == n4);
                            assert(b.contains_spec(n));
                        } else {
                            assert(written0.contains(q));
                            if stack0.contains(n) && !written.contains(n) {
                                let j = choose|j: int| 0 <= j < stack0.len() && stack0[j] == n;
                                if j < stack0.len() - 1 {
                                    assert(stack1[j] == n);
                                    assert(stack1.contains(n));
                                } else {
                                    assert(n == position);
                                }
                            }
                        }
                    }
                    // the seed stays accounted for
                    if !written.contains(start_point) && stack0.contains(start_point) {
                        let j = choose|j: int| 0 <= j < stack0.len() && stack0[j] == start_point;
                        if j < stack0.len() - 1 {
                            assert(stack1[j] == start_point);
                            assert(stack1.contains(start_point));
                        } else {
                            assert(position == start_point);
                        }
                    }
                }
            } else {
                proof {
                    // the popped cell was already written, or may not be
                    // entered at all
                    if already {
                        if !written.contains(position) {
                            assert(map_at(self@, position) == map_at(diff0, position));
                            assert(diff0.contains_key(position));
                            assert(!fill_open(tm, diff0, allowed, b, position));
                        }
                    } else {
                        assert(map_at(tm, position) != allowed);
                        assert(!fill_open(tm, diff0, allowed, b, position));
                    }
                    let stack1 = stack@;
                    assert forall|i: int| 0 <= i < stack1.len() implies b.contains_spec(
                        #[trigger] stack1[i],
                    ) && (stack1[i] == start_point || exists|p: Vector2I|
                        #[trigger] written.contains(p) && adjacent(p, stack1[i])) by {
                        assert(stack1[i] == stack0[i]);
                    }
                    assert forall|q: Vector2I, n: Vector2I|
                        #[trigger] written.contains(q) && #[trigger] adjacent(q, n) && fill_open(
                            tm,
                            diff0,
                            allowed,
                            b,
                            n,
                        ) implies stack1.contains(n) || written.contains(n) by {
                        if stack0.contains(n) && !written.contains(n) {
                            let j = choose|j: int| 0 <= j < stack0.len() && stack0[j] == n;
                            if j < stack0.len() - 1 {
                                assert(stack1[j] == n);
                                assert(stack1.contains(n));
                            } else {
                                assert(n == position);
                                assert(written.contains(position) || !fill_open(
                                    tm,
                                    diff0,
                                    allowed,
                                    b,
                                    position,
                                ));
                            }
                        }
                    }
                    if !written.contains(start_point) && !fill_open(
                        tm,
                        diff0,
                        allowed,
                        b,
                        start_point,
                    ) == false {
                        // the seed stays accounted for: it is either still on
                        // the stack or was the popped unenterable cell
                        if stack0.contains(start_point) && !stack1.contains(start_point) {
                            let j = choose|j: int|
                                0 <= j < stack0.len() && stack0[j] == start_point;
                            if j < stack0.len() - 1 {
                                assert(stack1[j] == start_point);
                            } else {
                                assert(position == start_point);
                                assert(!fill_open(tm, diff0, allowed, b, start_point));
                            }
                        }
                    }
                }
            }
        }
        proof {
            // with the stack empty, the written set is closed under
            // stepping to adjacent enterable cells, so it holds every
            // reachable cell
            assert forall|b2: TileRect|
                #[trigger] crate::source::is_bounding_rect_of(dom2, Some(b2)) implies (forall|
                q: Vector2I,
            |
                #[trigger] flood_covers(tm, diff0, b2, start_point, q) ==> self@.contains_key(q)
                    && exists|r: Option<TileDefinitionHandle>|
                    #[trigger] brush.valid_at(shifted(q, start_point), r) && self@[q]
                        == trans_value(brush.transform_spec(), r)) && (forall|q: Vector2I|
                !(#[trigger] flood_covers(tm, diff0, b2, start_point, q)) ==> map_at(self@, q)
                    == map_at(diff0, q)) by {
                // both tight bounding rectangles have the same corners
                let kl = choose|k: Vector2I| #[trigger] dom2.contains(k) && k.x == b.left();
                let kr = choose|k: Vector2I| #[trigger] dom2.contains(k) && k.x == b.right();
                let kb = choose|k: Vector2I| #[trigger] dom2.contains(k) && k.y == b.bottom();
                let kt = choose|k: Vector2I| #[trigger] dom2.contains(k) && k.y == b.top();
                let kl2 = choose|k: Vector2I| #[trigger] dom2.contains(k) && k.x == b2.left();
                let kr2 = choose|k: Vector2I| #[trigger] dom2.contains(k) && k.x == b2.right();
                let kb2 = choose|k: Vector2I| #[trigger] dom2.contains(k) && k.y == b2.bottom();
                let kt2 = choose|k: Vector2I| #[trigger] dom2.contains(k) && k.y == b2.top();
                assert(b2.contains_spec(kl) && b2.contains_spec(kr) && b2.contains_spec(kb)
                    && b2.contains_spec(kt));
                assert(b.contains_spec(kl2) && b.contains_spec(kr2) && b.contains_spec(kb2)
                    && b.contains_spec(kt2));
                TileRect::lemma_rect_eq(b2, b);
                assert forall|q: Vector2I|
                    #[trigger] flood_covers(tm, diff0, b, start_point, q) implies self@.contains_key(
                    q,
                ) && exists|r: Option<TileDefinitionHandle>|
                    #[trigger] brush.valid_at(shifted(q, start_point), r) && self@[q]
                        == trans_value(brush.transform_spec(), r) by {
                    lemma_reach_open(tm, diff0, allowed, b, start_point, q);
                    assert(written.contains(start_point));
                    lemma_reach_covered(tm, diff0, allowed, b, written, start_point, q);
                    assert(written.contains(q));
                }
                assert forall|q: Vector2I|
                    !(#[trigger] flood_covers(tm, diff0, b, start_point, q)) implies map_at(
                    self@,
                    q,
                ) == map_at(diff0, q) by {
                    assert(!written.contains(q));
                }
            }
        }
    }

    /// Fills the given rectangle region using the given tiles: every cell
    /// of the region for which the source produces a handle is written.
    pub fn rect_fill_inner<S: TileSource>(&mut self, region: TileRegion, brush: &S)
        requires
            brush.wf(),
            vec_ok(region.origin),
        ensures
            region.bounds@ is None ==> final(self)@ == old(self)@,
            region.bounds@ is Some ==> {
                let b = region.bounds@->Some_0;
                &&& forall|t: Vector2I|
                    #[trigger] b.contains_spec(t) ==> exists|r: Option<TileDefinitionHandle>|
                        {
                            &&& #[trigger] brush.valid_at(shifted(t, region.origin), r)
                            &&& match r {
                                Some(h) => final(self)@.contains_key(t) && final(self)@[t] == Some(
                                    (brush.transform_spec(), h),
                                ),
                                None => map_at(final(self)@, t) == map_at(old(self)@, t),
                            }
                        }
                &&& forall|q: Vector2I|
                    !(#[trigger] b.contains_spec(q)) ==> map_at(final(self)@, q) == map_at(
                        old(self)@,
                        q,
                    )
            },
    {
        let b = match &region.bounds.0 {
            None => {
                return ;
            }
            Some(b) => b,
        };
        b.observe();
        let trans = brush.transformation();
        let pos = b.position();
        let size = b.size();
        let left = pos.x;
        let bottom = pos.y;
        let right = left + size.x - 1;
        let top = bottom + size.y - 1;
        let mut y = bottom;
        while y <= top
            invariant
                brush.wf(),
                vec_ok(region.origin),
                trans == brush.transform_spec(),
                region.bounds@ is Some,
                b == region.bounds@->Some_0,
                left == b.left() && bottom == b.bottom() && right == b.right() && top == b.top(),
                1 <= b.width() && 1 <= b.height(),
                crate::rect::coord_ok(b.left()) && crate::rect::coord_ok(b.right()),
                crate::rect::coord_ok(b.bottom()) && crate::rect::coord_ok(b.top()),
                bottom <= y <= top + 1,
                forall|t: Vector2I|
                    #[trigger] b.contains_spec(t) && t.y < y ==> exists|
                        r: Option<TileDefinitionHandle>,
                    |
                        {
                            &&& #[trigger] brush.valid_at(shifted(t, region.origin), r)
                            &&& match r {
                                Some(h) => self@.contains_key(t) && self@[t] == Some((trans, h)),
                                None => map_at(self@, t) == map_at(old(self)@, t),
                            }
                        },
                forall|q: Vector2I|
                    !(#[trigger] b.contains_spec(q) && q.y < y) ==> map_at(self@, q) == map_at(
                        old(self)@,
                        q,
                    ),
            decreases top - y + 1,
        {
            let mut x = left;
            while x <= right
                invariant
                    brush.wf(),
                    vec_ok(region.origin),
                    trans == brush.transform_spec(),
                    region.bounds@ is Some,
                    b == region.bounds@->Some_0,
                    left == b.left() && bottom == b.bottom() && right == b.right() && top
                        == b.top(),
                    1 <= b.width() && 1 <= b.height(),
                    crate::rect::coord_ok(b.left()) && crate::rect::coord_ok(b.right()),
                    crate::rect::coord_ok(b.bottom()) && crate::rect::coord_ok(b.top()),
                    bottom <= y <= top,
                    left <= x <= right + 1,
                    forall|t: Vector2I|
                        #[trigger] b.contains_spec(t) && (t.y < y || (t.y == y && t.x < x)) ==> exists|
                            r: Option<TileDefinitionHandle>,
                        |
                            {
                                &&& #[trigger] brush.valid_at(shifted(t, region.origin), r)
                                &&& match r {
                                    Some(h) => self@.contains_key(t) && self@[t] == Some(
                                        (trans, h),
                                    ),
                                    None => map_at(self@, t) == map_at(old(self)@, t),
                                }
                            },
                    forall|q: Vector2I|
                        !(#[trigger] b.contains_spec(q) && (q.y < y || (q.y == y && q.x < x)))
                            ==> map_at(self@, q) == map_at(old(self)@, q),
                decreases right - x + 1,
            {
                let target = Vector2I { x, y };
                let source = Vector2I { x: x - region.origin.x, y: y - region.origin.y };
                proof {
                    assert(source == shifted(target, region.origin));
                }
                let ghost pre = self@;
                let r = brush.get_at(source);
                match r {
                    Some(h) => {
                        self.insert(target, Some((trans, h)));
                    }
                    None => {},
                }
                proof {
                    assert(brush.valid_at(shifted(target, region.origin), r));
                    assert forall|t: Vector2I|
                        #[trigger] b.contains_spec(t) && (t.y < y || (t.y == y && t.x < x + 1)) implies exists|
                        rr: Option<TileDefinitionHandle>,
                    |
                        {
                            &&& #[trigger] brush.valid_at(shifted(t, region.origin), rr)
                            &&& match rr {
                                Some(h) => self@.contains_key(t) && self@[t] == Some((trans, h)),
                                None => map_at(self@, t) == map_at(old(self)@, t),
                            }
                        } by {
                        if t == target {
                            assert(brush.valid_at(shifted(t, region.origin), r));
                        } else {
                            let rr = choose|rr: Option<TileDefinitionHandle>|
                                {
                                    &&& #[trigger] brush.valid_at(shifted(t, region.origin), rr)
                                    &&& match rr {
                                        Some(h) => pre.contains_key(t) && pre[t] == Some(
                                            (trans, h),
                                        ),
                                        None => map_at(pre, t) == map_at(old(self)@, t),
                                    }
                                };
                        }
                    }
                }
                x = x + 1;
            }
            y = y + 1;
        }
    }

    /// Fills the given rectangle using the given stamp, repeating it to
    /// cover the area: each cell receives the stamp tile found by wrapping
    /// the cell into the stamp's bounding rectangle, anchored at the
    /// corner facing the drag direction.
    pub fn rect_fill(&mut self, start: Vector2I, end: Vector2I, stamp: &Stamp)
        requires
            vec_ok(start),
            vec_ok(end),
        ensures
            forall|q: Vector2I|
                !(#[trigger] crate::rect::between_spec(start, end, q)) ==> map_at(
                    final(self)@,
                    q,
                ) == map_at(old(self)@, q),
            stamp@ == Map::<Vector2I, TileDefinitionHandle>::empty() ==> final(self)@ == old(
                self,
            )@,
            forall|bs: TileRect|
                #[trigger] crate::source::is_bounding_rect_of(stamp@.dom(), Some(bs)) ==> forall|
                    q: Vector2I,
                |
                    #[trigger] crate::rect::between_spec(start, end, q) ==> {
                        let w = crate::source::wrap_spec(
                            repeat_region(bs, start, end),
                            shifted(q, start),
                        );
                        match map_at(stamp@, w) {
                            Some(tile) => map_at(final(self)@, q) == Some(
                                Some((stamp.transform_spec(), tile)),
                            ),
                            None => map_at(final(self)@, q) == map_at(old(self)@, q),
                        }
                    },
    {
        let region = TileRegion::from_points(start, end);
        let stamp_source = stamp.repeat(start, end);
        let ghost gb = region.bounds@->Some_0;
        self.rect_fill_inner(region, &stamp_source);
        proof {
            assert forall|q: Vector2I|
                !(#[trigger] crate::rect::between_spec(start, end, q)) implies map_at(self@, q)
                == map_at(old(self)@, q) by {
                assert(!gb.contains_spec(q));
            }
            if stamp@ == Map::<Vector2I, TileDefinitionHandle>::empty() {
                assert(stamp@.dom() =~= Set::<Vector2I>::empty());
                assert(stamp_source.region.bounds@ is None);
                assert forall|q: Vector2I| #[trigger] map_at(self@, q) == map_at(
                    old(self)@,
                    q,
                ) by {
                    if gb.contains_spec(q) {
                        let r = choose|r: Option<TileDefinitionHandle>|
                            #[trigger] stamp_source.valid_at(shifted(q, region.origin), r) && (
                            match r {
                                Some(tile) => self@.contains_key(q) && self@[q] == Some(
                                    (stamp_source.transform_spec(), tile),
                                ),
                                None => map_at(self@, q) == map_at(old(self)@, q),
                            });
                    } else {
                        assert(!crate::rect::between_spec(start, end, q));
                    }
                }
                assert(self@ =~= old(self)@) by {
                    assert forall|q: Vector2I| #[trigger] self@.contains_key(q)
                        == old(self)@.contains_key(q) && (self@.contains_key(q)
                        ==> self@[q] == old(self)@[q]) by {
                        assert(map_at(self@, q) == map_at(old(self)@, q));
                    }
                }
            }
            assert forall|bs: TileRect|
                #[trigger] crate::source::is_bounding_rect_of(stamp@.dom(), Some(bs)) implies forall|
                q: Vector2I,
            |
                #[trigger] crate::rect::between_spec(start, end, q) ==> {
                    let w = crate::source::wrap_spec(
                        repeat_region(bs, start, end),
                        shifted(q, start),
                    );
                    match map_at(stamp@, w) {
                        Some(tile) => map_at(self@, q) == Some(
                            Some((stamp.transform_spec(), tile)),
                        ),
                        None => map_at(self@, q) == map_at(old(self)@, q),
                    }
                } by {
                let srect = stamp_source.region.bounds@->Some_0;
                let dom = stamp@.dom();
                let kl = choose|k: Vector2I| #[trigger] dom.contains(k) && k.x == srect.left();
                let kr = choose|k: Vector2I| #[trigger] dom.contains(k) && k.x == srect.right();
                let kb = choose|k: Vector2I| #[trigger] dom.contains(k) && k.y == srect.bottom();
                let kt = choose|k: Vector2I| #[trigger] dom.contains(k) && k.y == srect.top();
                let kl2 = choose|k: Vector2I| #[trigger] dom.contains(k) && k.x == bs.left();
                let kr2 = choose|k: Vector2I| #[trigger] dom.contains(k) && k.x == bs.right();
                let kb2 = choose|k: Vector2I| #[trigger] dom.contains(k) && k.y == bs.bottom();
                let kt2 = choose|k: Vector2I| #[trigger] dom.contains(k) && k.y == bs.top();
                assert(bs.contains_spec(kl) && bs.contains_spec(kr) && bs.contains_spec(kb)
                    && bs.contains_spec(kt));
                assert(srect.contains_spec(kl2) && srect.contains_spec(kr2) && srect.contains_spec(
                    kb2,
                ) && srect.contains_spec(kt2));
                TileRect::lemma_rect_eq(bs, srect);
                assert(stamp_source.region == repeat_region(bs, start, end));
                assert forall|q: Vector2I|
                    #[trigger] crate::rect::between_spec(start, end, q) implies {
                    let w = crate::source::wrap_spec(
                        repeat_region(bs, start, end),
                        shifted(q, start),
                    );
                    match map_at(stamp@, w) {
                        Some(tile) => map_at(self@, q) == Some(
                            Some((stamp.transform_spec(), tile)),
                        ),
                        None => map_at(self@, q) == map_at(old(self)@, q),
                    }
                } by {
                    assert(gb.contains_spec(q));
                    let r = choose|r: Option<TileDefinitionHandle>|
                        #[trigger] stamp_source.valid_at(shifted(q, region.origin), r) && (
                        match r {
                            Some(tile) => self@.contains_key(q) && self@[q] == Some(
                                (stamp_source.transform_spec(), tile),
                            ),
                            None => map_at(self@, q) == map_at(old(self)@, q),
                        });
                }
            }
        }
    }

    /// Draw a line from point to point: the cells of the Bresenham
    /// rasterization between the two points receive tiles from the source,
    /// each at its offset from the line's start.
    pub fn draw_line<S: TileSource>(&mut self, from: Vector2I, to: Vector2I, brush: &S)
        requires
            brush.wf(),
            vec_ok(from),
            vec_ok(to),
        ensures
            forall|p: Vector2I|
                #[trigger] line_points(from, to).contains(p) ==> exists|
                    r: Option<TileDefinitionHandle>,
                |
                    {
                        &&& #[trigger] brush.valid_at(shifted(p, from), r)
                        &&& match r {
                            Some(h) => final(self)@.contains_key(p) && final(self)@[p] == Some(
                                (brush.transform_spec(), h),
                            ),
                            None => map_at(final(self)@, p) == map_at(old(self)@, p),
                        }
                    },
            forall|q: Vector2I|
                !(#[trigger] line_points(from, to).contains(q)) ==> map_at(final(self)@, q)
                    == map_at(old(self)@, q),
    {
        let trans = brush.transformation();
        let steep = {
            let adx = if to.x >= from.x {
                to.x as i64 - from.x as i64
            } else {
                from.x as i64 - to.x as i64
            };
            let ady = if to.y >= from.y {
                to.y as i64 - from.y as i64
            } else {
                from.y as i64 - to.y as i64
            };
            ady > adx
        };
        let (a0, a1) = if steep {
            (Vector2I { x: from.y, y: from.x }, Vector2I { x: to.y, y: to.x })
        } else {
            (from, to)
        };
        let (s0, s1) = if a0.x > a1.x {
            (a1, a0)
        } else {
            (a0, a1)
        };
        let x0 = s0.x;
        let y0 = s0.y;
        let x1 = s1.x;
        let y1 = s1.y;
        let dx: i32 = x1 - x0;
        let dy: i32 = if y1 >= y0 {
            y1 - y0
        } else {
            y0 - y1
        };
        let y_step: i32 = if y0 < y1 {
            1
        } else {
            -1
        };
        let mut x = x0;
        let mut y = y0;
        let mut error = dx / 2;
        let ghost all = line_points(from, to);
        let ghost mut done = Seq::<Vector2I>::empty();
        proof {
            assert((x0 - x0) * dy == 0 && (y0 - y0) * y_step * dx == 0) by (nonlinear_arith);
            assert(all == bres_points(
                dx as int,
                dy as int,
                x as int,
                y as int,
                error as int,
                x1 as int,
                steep,
                y_step as int,
            ));
        }
        let mut more = x <= x1;
        while more
            invariant
                brush.wf(),
                vec_ok(from),
                trans == brush.transform_spec(),
                crate::rect::coord_ok(x0 as int) && crate::rect::coord_ok(x1 as int),
                crate::rect::coord_ok(y0 as int) && crate::rect::coord_ok(y1 as int),
                dx == x1 - x0,
                dy == if y1 >= y0 {
                    y1 - y0
                } else {
                    y0 - y1
                },
                0 <= dy <= dx,
                y_step == if y0 < y1 {
                    1int
                } else {
                    -1int
                },
                x0 <= x <= x1 + 1,
                dx >= 1 ==> 0 <= error <= dx - 1,
                dx == 0 ==> error == 0 && y == y0,
                error == dx / 2 - (x - x0) * dy + (y - y0) * y_step * dx,
                y_step == 1 ==> y0 <= y,
                y_step == -1 ==> y <= y0,
                more == (x <= x1),
                all == done + bres_points(
                    dx as int,
                    dy as int,
                    x as int,
                    y as int,
                    error as int,
                    x1 as int,
                    steep,
                    y_step as int,
                ),
                forall|p: Vector2I|
                    #[trigger] done.contains(p) ==> exists|r: Option<TileDefinitionHandle>|
                        {
                            &&& #[trigger] brush.valid_at(shifted(p, from), r)
                            &&& match r {
                                Some(h) => self@.contains_key(p) && self@[p] == Some((trans, h)),
                                None => map_at(self@, p) == map_at(old(self)@, p),
                            }
                        },
                forall|q: Vector2I|
                    !(#[trigger] done.contains(q)) ==> map_at(self@, q) == map_at(old(self)@, q),
            decreases x1 - x + 1,
        {
            proof {
                if dx == 0 {
                    assert(dy == 0 && y == y0 && y1 == y0);
                    assert(y_step == 1 ==> y0 <= y <= y1);
                    assert(y_step == -1 ==> y1 <= y <= y0);
                } else {
                    assert((x - x0) * dy <= dx * dy) by (nonlinear_arith)
                        requires
                            0 <= x - x0 <= dx,
                            0 <= dy,
                    ;
                    assert((y - y0) * y_step * dx <= dx - 1 - dx / 2 + dx * dy) by {
                        assert(error <= dx - 1);
                        assert((y - y0) * y_step * dx == error - dx / 2 + (x - x0) * dy);
                    }
                    assert((y - y0) * y_step <= dy) by (nonlinear_arith)
                        requires
                            (y - y0) * y_step * dx <= dx - 1 - dx / 2 + dx * dy,
                            dx / 2 >= 0,
                            dx >= 1,
                    ;
                    assert((y - y0) * y_step >= 0) by (nonlinear_arith)
                        requires
                            (y - y0) * y_step * dx >= 0 - dx / 2 + 0,
                            0 <= 2 * (dx / 2) <= dx,
                            dx >= 1,
                    ;
                    assert((y_step == 1 ==> y0 <= y <= y1) && (y_step == -1 ==> y1 <= y <= y0))
                        by (nonlinear_arith)
                        requires
                            0 <= (y - y0) * y_step <= dy,
                            y_step == 1 ==> dy == y1 - y0,
                            y_step == -1 ==> dy == y0 - y1,
                            y_step == 1 || y_step == -1,
                    ;
                }
            }
            let out = if steep {
                Vector2I { x: y, y: x }
            } else {
                Vector2I { x, y }
            };
            let ghost pre = self@;
            let ghost done0 = done;
            let ghost rem = bres_points(
                dx as int,
                dy as int,
                x as int,
                y as int,
                error as int,
                x1 as int,
                steep,
                y_step as int,
            );
            proof {
                assert(rem[0] == out);
                assert(all.contains(out)) by {
                    assert(all[done.len() as int] == out);
                }
            }
            let source = Vector2I { x: out.x - from.x, y: out.y - from.y };
            proof {
                assert(source == shifted(out, from));
            }
            let r = brush.get_at(source);
            match r {
                Some(h) => {
                    self.insert(out, Some((trans, h)));
                }
                None => {},
            }
            proof {
                done = done0 + seq![out];
                assert forall|p: Vector2I| #[trigger] done.contains(p) implies exists|
                    rr: Option<TileDefinitionHandle>,
                |
                    {
                        &&& #[trigger] brush.valid_at(shifted(p, from), rr)
                        &&& match rr {
                            Some(h) => self@.contains_key(p) && self@[p] == Some((trans, h)),
                            None => map_at(self@, p) == map_at(old(self)@, p),
                        }
                    } by {
                    if p == out && r is Some {
                        assert(brush.valid_at(shifted(p, from), r));
                    } else if p == out && !done0.contains(p) {
                        assert(brush.valid_at(shifted(p, from), r));
                        assert(map_at(self@, p) == map_at(old(self)@, p));
                    } else {
                        if p != out {
                            let j = choose|j: int| 0 <= j < done.len() && done[j] == p;
                            assert(done0.contains(p)) by {
                                assert(done0[j] == p);
                            }
                        }
                        let rr = choose|rr: Option<TileDefinitionHandle>|
                            {
                                &&& #[trigger] brush.valid_at(shifted(p, from), rr)
                                &&& match rr {
                                    Some(h) => pre.contains_key(p) && pre[p] == Some((trans, h)),
                                    None => map_at(pre, p) == map_at(old(self)@, p),
                                }
                            };
                    }
                }
                assert forall|q: Vector2I|
                    !(#[trigger] done.contains(q)) implies map_at(self@, q) == map_at(
                    old(self)@,
                    q,
                ) by {
                    assert(!done0.contains(q)) by {
                        if done0.contains(q) {
                            let j = choose|j: int| 0 <= j < done0.len() && done0[j] == q;
                            assert(done[j] == q);
                        }
                    }
                    assert(q != out) by {
                        assert(done[done.len() - 1] == out);
                    }
                }
            }
            let ghost xo = x as int;
            let ghost yo = y as int;
            let ghost eo = error as int;
            x = x + 1;
            error = error - dy;
            if error < 0 {
                y = y + y_step;
                error = error + dx;
            }
            more = x <= x1;
            proof {
                assert(error == dx / 2 - (x - x0) * dy + (y - y0) * y_step * dx)
                    by (nonlinear_arith)
                    requires
                        eo == dx / 2 - (xo - x0) * dy + (yo - y0) * y_step * dx,
                        x == xo + 1,
                        y_step == 1 || y_step == -1,
                        (eo - dy < 0 ==> y == yo + y_step && error == eo - dy + dx),
                        (eo - dy >= 0 ==> y == yo && error == eo - dy),
                ;
                assert(rem.drop_first() == bres_points(
                    dx as int,
                    dy as int,
                    x as int,
                    y as int,
                    error as int,
                    x1 as int,
                    steep,
                    y_step as int,
                ));
                assert(all == done + rem.drop_first());
            }
        }
        proof {
            assert(all == done);
            assert forall|q: Vector2I|
                !(#[trigger] line_points(from, to).contains(q)) implies map_at(self@, q) == map_at(
                old(self)@,
                q,
            ) by {
                assert(!done.contains(q));
            }
        }
    }


    /// Fills in a rectangle using a brush whose own bounding rectangle is
    /// treated as a 3-by-3 grid: the four corner tiles go to the four
    /// corners of the target rectangle, the edges are filled with repeated
    /// edge tiles, and the interior with the repeated center. When the
    /// target is narrower than 3 cells in an axis, the edge fills along
    /// that axis are skipped entirely.
    pub fn nine_slice(&mut self, start: Vector2I, end: Vector2I, brush: &Stamp)
        requires
            vec_ok(start),
            vec_ok(end),
        ensures
            nine_slice_post(old(self)@, final(self)@, start, end, brush, false),
    {
        self.nine_slice_inner::<false>(start, end, brush);
    }

    /// Fills in a rectangle as [`Self::nine_slice`] does, but shuffles the
    /// edge and interior tiles into random order.
    pub fn nine_slice_random(&mut self, start: Vector2I, end: Vector2I, brush: &Stamp)
        requires
            vec_ok(start),
            vec_ok(end),
        ensures
            nine_slice_post(old(self)@, final(self)@, start, end, brush, true),
    {
        self.nine_slice_inner::<true>(start, end, brush);
    }

    #[verifier::rlimit(100)]
    #[verifier::spinoff_prover]
    fn nine_slice_inner<const RANDOM: bool>(&mut self, start: Vector2I, end: Vector2I, stamp: &Stamp)
        requires
            vec_ok(start),
            vec_ok(end),
        ensures
            nine_slice_post(old(self)@, final(self)@, start, end, stamp, RANDOM),
    {
        let stamp_bounds = stamp.bounding_rect();
        let stamp_rect = match stamp_bounds.0 {
            Some(r) => r,
            None => {
                proof {
                    assert forall|bs: TileRect|
                        !(#[trigger] crate::source::is_bounding_rect_of(
                            stamp@.dom(),
                            Some(bs),
                        )) by {
                        if crate::source::is_bounding_rect_of(stamp@.dom(), Some(bs)) {
                            let k = choose|k: Vector2I|
                                #[trigger] stamp@.dom().contains(k) && k.x == bs.left();
                            assert(stamp@.dom().contains(k));
                        }
                    }
                }
                return ;
            }
        };
        stamp_rect.observe();
        let ghost m0 = self@;
        let rect = TileRect::from_points(start, end);
        let region = TileRegion { origin: start, bounds: OptionTileRect(Some(rect)) };
        let inner_region = region.deflate(1, 1);
        let dx: i64 = start.x as i64 - end.x as i64;
        let dy: i64 = start.y as i64 - end.y as i64;
        let direction = Vector2I {
            x: if dx <= 0 {
                -1
            } else {
                1
            },
            y: if dy <= 0 {
                -1
            } else {
                1
            },
        };
        let stamp_region = TileRegion::from_bounds_and_direction(stamp_bounds, direction);
        let inner_stamp_region = stamp_region.deflate(1, 1);
        let ghost sorig = stamp_region.origin;
        let ghost st_inner = inner_stamp_region.bounds@;
        let ghost mut st_top: Option<TileRect> = None;
        let ghost mut st_bottom: Option<TileRect> = None;
        let ghost mut st_left: Option<TileRect> = None;
        let ghost mut st_right: Option<TileRect> = None;
        proof {
            // the stamp is not empty: its bounding rectangle has witnesses
            if stamp@ == Map::<Vector2I, TileDefinitionHandle>::empty() {
                let k = choose|k: Vector2I|
                    #[trigger] stamp@.dom().contains(k) && k.x == stamp_rect.left();
                assert(stamp@.dom().contains(k));
                assert(false);
            }
        }

        let trans = stamp.transformation();
        // place corners first
        let rect_lb = rect.left_bottom_corner();
        let rect_lt = rect.left_top_corner();
        let rect_rb = rect.right_bottom_corner();
        let rect_rt = rect.right_top_corner();
        let s_lb = stamp_rect.left_bottom_corner();
        let s_lt = stamp_rect.left_top_corner();
        let s_rb = stamp_rect.right_bottom_corner();
        let s_rt = stamp_rect.right_top_corner();
        match stamp.get_at(s_lt) {
            Some(tile) => {
                self.insert(rect_lt, Some((trans, tile)));
            }
            None => {},
        }
        match stamp.get_at(s_rt) {
            Some(tile) => {
                self.insert(rect_rt, Some((trans, tile)));
            }
            None => {},
        }
        match stamp.get_at(s_rb) {
            Some(tile) => {
                self.insert(rect_rb, Some((trans, tile)));
            }
            None => {},
        }
        match stamp.get_at(s_lb) {
            Some(tile) => {
                self.insert(rect_lb, Some((trans, tile)));
            }
            None => {},
        }
        let ghost m1 = self@;

        let rect_size = rect.size();
        let stamp_size = stamp_rect.size();
        let ghost mut top_bounds: Option<TileRect> = None;
        let ghost mut bottom_bounds: Option<TileRect> = None;
        let ghost mut m2 = self@;
        let ghost mut m3 = self@;
        if rect_size.x > 2 && stamp_size.x > 2 {
            let top = region.with_bounds(
                OptionTileRect::from_points(
                    Vector2I { x: rect_lt.x + 1, y: rect_lt.y },
                    Vector2I { x: rect_rt.x - 1, y: rect_rt.y },
                ),
            );
            let bottom = region.with_bounds(
                OptionTileRect::from_points(
                    Vector2I { x: rect_lb.x + 1, y: rect_lb.y },
                    Vector2I { x: rect_rb.x - 1, y: rect_rb.y },
                ),
            );
            let stamp_top = stamp_region.with_bounds(
                OptionTileRect::from_points(
                    Vector2I { x: s_lt.x + 1, y: s_lt.y },
                    Vector2I { x: s_rt.x - 1, y: s_rt.y },
                ),
            );
            let stamp_bottom = stamp_region.with_bounds(
                OptionTileRect::from_points(
                    Vector2I { x: s_lb.x + 1, y: s_lb.y },
                    Vector2I { x: s_rb.x - 1, y: s_rb.y },
                ),
            );
            proof {
                top_bounds = top.bounds@;
                st_top = stamp_top.bounds@;
            }
            self.fill_part::<RANDOM>(top, stamp, stamp_top);
            proof {
                m2 = self@;
                bottom_bounds = bottom.bounds@;
                st_bottom = stamp_bottom.bounds@;
            }
            self.fill_part::<RANDOM>(bottom, stamp, stamp_bottom);
            proof {
                m3 = self@;
            }
        } else {
            proof {
                m2 = self@;
                m3 = self@;
            }
        }
        let ghost mut left_bounds: Option<TileRect> = None;
        let ghost mut right_bounds: Option<TileRect> = None;
        let ghost mut m4 = self@;
        let ghost mut m5 = self@;
        if rect_size.y > 2 && stamp_size.y > 2 {
            let left = region.with_bounds(
                OptionTileRect::from_points(
                    Vector2I { x: rect_lb.x, y: rect_lb.y + 1 },
                    Vector2I { x: rect_lt.x, y: rect_lt.y - 1 },
                ),
            );
            let right = region.with_bounds(
                OptionTileRect::from_points(
                    Vector2I { x: rect_rb.x, y: rect_rb.y + 1 },
                    Vector2I { x: rect_rt.x, y: rect_rt.y - 1 },
                ),
            );
            let stamp_left = stamp_region.with_bounds(
                OptionTileRect::from_points(
                    Vector2I { x: s_lb.x, y: s_lb.y + 1 },
                    Vector2I { x: s_lt.x, y: s_lt.y - 1 },
                ),
            );
            let stamp_right = stamp_region.with_bounds(
                OptionTileRect::from_points(
                    Vector2I { x: s_rb.x, y: s_rb.y + 1 },
                    Vector2I { x: s_rt.x, y: s_rt.y - 1 },
                ),
            );
            proof {
                left_bounds = left.bounds@;
                st_left = stamp_left.bounds@;
            }
            self.fill_part::<RANDOM>(left, stamp, stamp_left);
            proof {
                m4 = self@;
                right_bounds = right.bounds@;
                st_right = stamp_right.bounds@;
            }
            self.fill_part::<RANDOM>(right, stamp, stamp_right);
            proof {
                m5 = self@;
            }
        } else {
            proof {
                m4 = self@;
                m5 = self@;
            }
        }
        self.fill_part::<RANDOM>(inner_region, stamp, inner_stamp_region);
        proof {
            let m6 = self@;
            let minx = vstd::math::min(start.x as int, end.x as int);
            let maxx = vstd::math::max(start.x as int, end.x as int);
            let miny = vstd::math::min(start.y as int, end.y as int);
            let maxy = vstd::math::max(start.y as int, end.y as int);
            assert(rect_lt == vec2(minx, maxy) && rect_rt == vec2(maxx, maxy) && rect_rb == vec2(
                maxx,
                miny,
            ) && rect_lb == vec2(minx, miny));
            assert(s_lt == vec2(stamp_rect.left(), stamp_rect.top()) && s_rt == vec2(
                stamp_rect.right(),
                stamp_rect.top(),
            ) && s_rb == vec2(stamp_rect.right(), stamp_rect.bottom()) && s_lb == vec2(
                stamp_rect.left(),
                stamp_rect.bottom(),
            ));
            // the four corner writes, when the target corners are distinct
            if maxx > minx && maxy > miny {
                assert(rect_lt != rect_rt && rect_lt != rect_rb && rect_lt != rect_lb && rect_rt
                    != rect_rb && rect_rt != rect_lb && rect_rb != rect_lb);
                assert(corner_write(m0, m1, stamp@, trans, s_lt, rect_lt));
                assert(corner_write(m0, m1, stamp@, trans, s_rt, rect_rt));
                assert(corner_write(m0, m1, stamp@, trans, s_rb, rect_rb));
                assert(corner_write(m0, m1, stamp@, trans, s_lb, rect_lb));
            }
            // the corner phase touches only the four corner cells
            assert forall|q: Vector2I|
                #![trigger map_at(m1, q)]
                q != rect_lt && q != rect_rt && q != rect_rb && q != rect_lb implies map_at(m1, q)
                == map_at(m0, q) by {}
            // the repeat anchor of the edge and interior fills
            assert(sorig == repeat_region(stamp_rect, start, end).origin);
            lemma_nine_slice_phases(
                RANDOM,
                stamp,
                start,
                end,
                stamp_rect,
                sorig,
                m0,
                m1,
                m2,
                m3,
                m4,
                m5,
                m6,
                top_bounds,
                bottom_bounds,
                left_bounds,
                right_bounds,
                inner_region.bounds@,
                st_top,
                st_bottom,
                st_left,
                st_right,
                st_inner,
            );
        }
    }

    /// Fill one part of a nine-slice: with the repeating source, or with
    /// the random source restricted to the part of the stamp. Each cell of
    /// the target receives the part's tile as [`part_fill`] states it, and
    /// nothing outside the target changes.
    fn fill_part<const RANDOM: bool>(
        &mut self,
        target: TileRegion,
        stamp: &Stamp,
        stamp_part: TileRegion,
    )
        requires
            vec_ok(target.origin),
            vec_ok(stamp_part.origin),
        ensures
            target.bounds@ is None ==> final(self)@ == old(self)@,
            forall|q: Vector2I|
                map_at(final(self)@, q) != map_at(old(self)@, q) ==> target.bounds@ is Some
                    && (#[trigger] target.bounds@->Some_0.contains_spec(q)),
            target.bounds@ is Some ==> forall|t: Vector2I|
                #[trigger] target.bounds@->Some_0.contains_spec(t) ==> match stamp_part.bounds@ {
                    None => map_at(final(self)@, t) == map_at(old(self)@, t),
                    Some(pr) => part_fill(
                        RANDOM,
                        old(self)@,
                        final(self)@,
                        stamp@,
                        stamp.transform_spec(),
                        stamp_part.origin,
                        pr.left(),
                        pr.bottom(),
                        pr.width(),
                        pr.height(),
                        target.origin,
                        t,
                    ),
                },
    {
        let ghost pre = self@;
        if RANDOM {
            let source = crate::source::PartialRandomTileSource(stamp, stamp_part.bounds);
            self.rect_fill_inner(target, &source);
            proof {
                if target.bounds@ is Some {
                    let b = target.bounds@->Some_0;
                    assert forall|t: Vector2I| #[trigger] b.contains_spec(t) implies match stamp_part.bounds@ {
                        None => map_at(self@, t) == map_at(pre, t),
                        Some(pr) => part_fill(
                            RANDOM,
                            pre,
                            self@,
                            stamp@,
                            stamp.transform_spec(),
                            stamp_part.origin,
                            pr.left(),
                            pr.bottom(),
                            pr.width(),
                            pr.height(),
                            target.origin,
                            t,
                        ),
                    } by {
                        let r = choose|r: Option<TileDefinitionHandle>|
                            #[trigger] source.valid_at(shifted(t, target.origin), r) && (match r {
                                Some(tile) => self@.contains_key(t) && self@[t] == Some(
                                    (source.transform_spec(), tile),
                                ),
                                None => map_at(self@, t) == map_at(pre, t),
                            });
                        match stamp_part.bounds@ {
                            None => {},
                            Some(pr) => {
                                match r {
                                    Some(tile) => {
                                        let q = choose|q: Vector2I|
                                            #[trigger] pr.contains_spec(q) && Some(tile) == (
                                            if stamp@.contains_key(q) {
                                                Some(stamp@[q])
                                            } else {
                                                None::<TileDefinitionHandle>
                                            });
                                        assert(stamp@.contains_key(q) && stamp@[q] == tile);
                                        assert(pr.left() <= q.x <= pr.left() + pr.width() - 1
                                            && pr.bottom() <= q.y <= pr.bottom() + pr.height()
                                            - 1);
                                    },
                                    None => {},
                                }
                            },
                        }
                    }
                }
            }
        } else {
            let source = RepeatTileSource { source: stamp, region: stamp_part };
            self.rect_fill_inner(target, &source);
            proof {
                if target.bounds@ is Some {
                    let b = target.bounds@->Some_0;
                    assert forall|t: Vector2I| #[trigger] b.contains_spec(t) implies match stamp_part.bounds@ {
                        None => map_at(self@, t) == map_at(pre, t),
                        Some(pr) => part_fill(
                            RANDOM,
                            pre,
                            self@,
                            stamp@,
                            stamp.transform_spec(),
                            stamp_part.origin,
                            pr.left(),
                            pr.bottom(),
                            pr.width(),
                            pr.height(),
                            target.origin,
                            t,
                        ),
                    } by {
                        let r = choose|r: Option<TileDefinitionHandle>|
                            #[trigger] source.valid_at(shifted(t, target.origin), r) && (match r {
                                Some(tile) => self@.contains_key(t) && self@[t] == Some(
                                    (source.transform_spec(), tile),
                                ),
                                None => map_at(self@, t) == map_at(pre, t),
                            });
                        match stamp_part.bounds@ {
                            None => {},
                            Some(pr) => {
                                // the repeating lookup is exactly the wrapped
                                // position of the part
                                assert(crate::source::wrap_spec(
                                    stamp_part,
                                    shifted(t, target.origin),
                                ) == wrap_at(
                                    stamp_part.origin,
                                    pr.left(),
                                    pr.bottom(),
                                    pr.width(),
                                    pr.height(),
                                    shifted(t, target.origin),
                                ));
                            },
                        }
                    }
                }
            }
        }
        proof {
            if target.bounds@ is Some {
                let b = target.bounds@->Some_0;
                assert forall|q: Vector2I|
                    map_at(self@, q) != map_at(pre, q) implies (#[trigger] b.contains_spec(q)) by {
                    if !b.contains_spec(q) {
                        assert(map_at(self@, q) == map_at(pre, q));
                    }
                }
            }
        }
    }

    /// Fills the given rectangle using random tiles from the given stamp:
    /// each cell of the rectangle receives some tile of the stamp, freshly
    /// sampled per cell, or stays as it was when the stamp is empty.
    pub fn rect_fill_random(&mut self, start: Vector2I, end: Vector2I, stamp: &Stamp)
        requires
            vec_ok(start),
            vec_ok(end),
        ensures
            forall|q: Vector2I|
                !(#[trigger] crate::rect::between_spec(start, end, q)) ==> map_at(
                    final(self)@,
                    q,
                ) == map_at(old(self)@, q),
            forall|q: Vector2I|
                #[trigger] crate::rect::between_spec(start, end, q) ==> (
                (stamp@ == Map::<Vector2I, TileDefinitionHandle>::empty() && map_at(final(self)@, q)
                    == map_at(old(self)@, q)) || exists|p: Vector2I|
                    #[trigger] stamp@.contains_key(p) && map_at(final(self)@, q) == Some(
                        Some((stamp.transform_spec(), stamp@[p])),
                    )),
    {
        let region = TileRegion::from_points(start, end);
        let ghost gb = region.bounds@->Some_0;
        let source = RandomTileSource(stamp);
        self.rect_fill_inner(region, &source);
        proof {
            assert forall|q: Vector2I|
                !(#[trigger] crate::rect::between_spec(start, end, q)) implies map_at(self@, q)
                == map_at(old(self)@, q) by {
                assert(!gb.contains_spec(q));
            }
            assert forall|q: Vector2I|
                #[trigger] crate::rect::between_spec(start, end, q) implies ((stamp@ == Map::<
                Vector2I,
                TileDefinitionHandle,
            >::empty() && map_at(self@, q) == map_at(old(self)@, q)) || exists|p: Vector2I|
                #[trigger] stamp@.contains_key(p) && map_at(self@, q) == Some(
                    Some((stamp.transform_spec(), stamp@[p])),
                )) by {
                assert(gb.contains_spec(q));
                let r = choose|r: Option<TileDefinitionHandle>|
                    #[trigger] source.valid_at(shifted(q, region.origin), r) && (match r {
                        Some(tile) => self@.contains_key(q) && self@[q] == Some(
                            (source.transform_spec(), tile),
                        ),
                        None => map_at(self@, q) == map_at(old(self)@, q),
                    });
                match r {
                    Some(tile) => {
                        let p = choose|p: Vector2I|
                            #[trigger] stamp@.contains_key(p) && stamp@[p] == tile;
                    },
                    None => {},
                }
            }
        }
    }
}

} // verus!

use crate::tile_set::Color;
use crate::tile_set::PropertyId;
use crate::tile_set::TileCollider;
use crate::tile_set::TileData;
use crate::tile_set::TileDefinition;
use crate::tile_set::TileMaterialBounds;
use crate::tile_set::TileRenderData;
use crate::tile_set::TileSet;
use crate::tile_set::TileSetPageSource;
use crate::tile_set::TileSetPropertyValue;
use crate::grid_map::GridMap;

verus! {

broadcast use vstd::array::group_array_axioms;

/// A change of material for some tile. Either the material is being
/// erased, or it is being replaced by the given material.
#[derive(Clone, Copy, PartialEq, Eq, Structural, Debug)]
pub enum MaterialUpdate {
    /// This update is eliminating the material from the tile.
    Erase,
    /// This update is replacing the material of the tile.
    Replace(TileMaterialBounds),
}

/// This represents a change to a tile in some tile set.
pub enum TileDataUpdate {
    /// Remove this tile.
    Erase,
    /// This variant is for changing a material page tile.
    MaterialTile(TileData),
    /// This variant is for changing a freeform page tile.
    FreeformTile(TileDefinition),
    /// This variant is for changing the transform of a tile. This update
    /// must be applied to some cell of a transform set page; it contains
    /// the new source tile for the transform cell.
    TransformSet(Option<TileDefinitionHandle>),
    /// This variant is for changing a tile's color.
    Color(Color),
    /// This variant is for changing a tile's property.
    Property(PropertyId, Option<TileSetPropertyValue>),
    /// This variant is for changing some of a tile property's nine slices.
    PropertySlice(PropertyId, [Option<i8>; 9]),
    /// This variant is for changing a tile's collider.
    Collider(PropertyId, Option<TileCollider>),
    /// This variant is for changing a tile's material.
    Material(TileMaterialBounds),
}

/// Whether a data update carries a value that can be swapped against a
/// live tile-data record; swapping the payload-free variants is a caller
/// error.
pub open spec fn data_swappable(u: TileDataUpdate) -> bool {
    !(u is Erase) && !(u is TransformSet) && !(u is Material)
}

/// How one swap step relates the update and the data record before the
/// call to the pair after it: the update and the record exchange exactly
/// the field the update addresses.
pub open spec fn swap_rel(u0: TileDataUpdate, d0: TileData, u1: TileDataUpdate, d1: TileData) -> bool {
    match u0 {
        TileDataUpdate::MaterialTile(td) => {
            &&& u1 == TileDataUpdate::MaterialTile(d0)
            &&& d1 == td
        },
        TileDataUpdate::FreeformTile(def) => {
            &&& u1 == TileDataUpdate::FreeformTile(
                TileDefinition { material_bounds: def.material_bounds, data: d0 },
            )
            &&& d1 == def.data
        },
        TileDataUpdate::Color(c) => {
            &&& u1 == TileDataUpdate::Color(d0.color)
            &&& d1.color == c
            &&& d1.properties == d0.properties
            &&& d1.collider == d0.collider
        },
        TileDataUpdate::Collider(id, v) => {
            &&& u1 == TileDataUpdate::Collider(id, map_at(d0.collider@, id))
            &&& d1.color == d0.color
            &&& d1.properties == d0.properties
            &&& d1.collider@ == (match v {
                Some(x) => d0.collider@.insert(id, x),
                None => d0.collider@.remove(id),
            })
        },
        TileDataUpdate::Property(id, v) => {
            &&& u1 == TileDataUpdate::Property(id, map_at(d0.properties@, id))
            &&& d1.color == d0.color
            &&& d1.collider == d0.collider
            &&& d1.properties@ == (match v {
                Some(x) => d0.properties@.insert(id, x),
                None => d0.properties@.remove(id),
            })
        },
        TileDataUpdate::PropertySlice(id, slots) => {
            if d0.properties@.contains_key(id) {
                match d0.properties@[id] {
                    TileSetPropertyValue::NineSlice(v0) => {
                        &&& match u1 {
                            TileDataUpdate::PropertySlice(id1, slots1) => id1 == id && forall|
                                k: int,
                            |
                                0 <= k < 9 ==> #[trigger] slots1@[k] == (if slots@[k] is Some {
                                    Some(v0@[k])
                                } else {
                                    None
                                }),
                            _ => false,
                        }
                        &&& d1.color == d0.color
                        &&& d1.collider == d0.collider
                        &&& d1.properties@.contains_key(id)
                        &&& match d1.properties@[id] {
                            TileSetPropertyValue::NineSlice(v1) => forall|k: int|
                                0 <= k < 9 ==> #[trigger] v1@[k] == (if slots@[k] is Some {
                                    slots@[k]->Some_0
                                } else {
                                    v0@[k]
                                }),
                            _ => false,
                        }
                        &&& d1.properties@.remove(id) == d0.properties@.remove(id)
                    },
                    _ => u1 == u0 && d1 == d0,
                }
            } else {
                &&& u1 == TileDataUpdate::Property(id, None::<TileSetPropertyValue>)
                &&& d1.color == d0.color
                &&& d1.collider == d0.collider
                &&& d1.properties@.contains_key(id)
                &&& match d1.properties@[id] {
                    TileSetPropertyValue::NineSlice(v1) => forall|k: int|
                        0 <= k < 9 ==> #[trigger] v1@[k] == (if slots@[k] is Some {
                            slots@[k]->Some_0
                        } else {
                            0i8
                        }),
                    _ => false,
                }
                &&& d1.properties@.remove(id) == d0.properties@
            }
        },
        _ => false,
    }
}

/// An `i8` option, or a default when absent.
fn pick_i8(o: Option<i8>, d: i8) -> (r: i8)
    ensures
        r == (if o is Some {
            o->Some_0
        } else {
            d
        }),
{
    match o {
        Some(x) => x,
        None => d,
    }
}

impl TileDataUpdate {
    /// The handle that should be used in place of the given handle, if
    /// this update has changed the handle of a transform set tile. `None`
    /// is returned if no tile should be rendered; the given tile is
    /// returned if no change should be made.
    pub fn substitute_transform_handle(&self, source: TileDefinitionHandle) -> (r: Option<
        TileDefinitionHandle,
    >)
        ensures
            r == (match *self {
                TileDataUpdate::TransformSet(new_source) => new_source,
                _ => Some(source),
            }),
    {
        match self {
            TileDataUpdate::TransformSet(new_source) => *new_source,
            _ => Some(source),
        }
    }

    /// The render data that should be used in place of the given render
    /// data, based on this update. `None` is returned if no tile should be
    /// rendered.
    pub fn modify_render(&self, source: &TileRenderData) -> (r: Option<TileRenderData>)
        ensures
            r == (match *self {
                TileDataUpdate::Erase => None::<TileRenderData>,
                TileDataUpdate::MaterialTile(ref tile_data) => Some(
                    TileRenderData { material_bounds: source.material_bounds, color: tile_data.color },
                ),
                TileDataUpdate::FreeformTile(ref def) => Some(
                    TileRenderData {
                        material_bounds: Some(def.material_bounds),
                        color: def.data.color,
                    },
                ),
                TileDataUpdate::Color(color) => Some(
                    TileRenderData { material_bounds: source.material_bounds, color },
                ),
                TileDataUpdate::Material(material_bounds) => Some(
                    TileRenderData { material_bounds: Some(material_bounds), color: source.color },
                ),
                _ => Some(*source),
            }),
    {
        match self {
            TileDataUpdate::Erase => None,
            TileDataUpdate::MaterialTile(tile_data) => Some(
                TileRenderData { material_bounds: source.material_bounds, color: tile_data.color },
            ),
            TileDataUpdate::FreeformTile(def) => Some(
                TileRenderData { material_bounds: Some(def.material_bounds), color: def.data.color },
            ),
            TileDataUpdate::Color(color) => Some(
                TileRenderData { material_bounds: source.material_bounds, color: *color },
            ),
            TileDataUpdate::Material(material_bounds) => Some(
                TileRenderData { material_bounds: Some(*material_bounds), color: source.color },
            ),
            _ => Some(*source),
        }
    }

    /// Remove the tile data and turn this update into `Erase`; the update
    /// must be a `MaterialTile`.
    pub fn take_data(&mut self) -> (r: TileData)
        requires
            *old(self) is MaterialTile,
        ensures
            *final(self) is Erase,
            *old(self) == TileDataUpdate::MaterialTile(r),
    {
        let mut taken = TileDataUpdate::Erase;
        core::mem::swap(&mut taken, self);
        match taken {
            TileDataUpdate::MaterialTile(d) => d,
            _ => unreached(),
        }
    }

    /// Remove the tile definition and turn this update into `Erase`; the
    /// update must be a `FreeformTile`.
    pub fn take_definition(&mut self) -> (r: TileDefinition)
        requires
            *old(self) is FreeformTile,
        ensures
            *final(self) is Erase,
            *old(self) == TileDataUpdate::FreeformTile(r),
    {
        let mut taken = TileDataUpdate::Erase;
        core::mem::swap(&mut taken, self);
        match taken {
            TileDataUpdate::FreeformTile(d) => d,
            _ => unreached(),
        }
    }

    /// Swap whatever value is in this tile update with the corresponding
    /// value in the given tile data: afterwards the update holds the
    /// record's old value and the record holds the update's. The
    /// payload-free variants (`Erase`, `TransformSet`, `Material`) have no
    /// data to swap and may not be passed.
    pub fn swap_with_data(&mut self, data: &mut TileData)
        requires
            data_swappable(*old(self)),
        ensures
            swap_rel(*old(self), *old(data), *final(self), *final(data)),
            data_swappable(*final(self)),
    {
        let mut u = TileDataUpdate::Erase;
        core::mem::swap(&mut u, self);
        match u {
            TileDataUpdate::MaterialTile(mut tile_data) => {
                core::mem::swap(&mut tile_data, data);
                *self = TileDataUpdate::MaterialTile(tile_data);
            },
            TileDataUpdate::FreeformTile(mut tile_definition) => {
                core::mem::swap(&mut tile_definition.data, data);
                *self = TileDataUpdate::FreeformTile(tile_definition);
            },
            TileDataUpdate::Color(mut color) => {
                core::mem::swap(&mut color, &mut data.color);
                *self = TileDataUpdate::Color(color);
            },
            TileDataUpdate::Collider(id, value) => {
                let mut collider = GridMap::new();
                core::mem::swap(&mut collider, &mut data.collider);
                let prev = match value {
                    Some(x) => collider.insert(id, x),
                    None => collider.remove(&id),
                };
                data.collider = collider;
                *self = TileDataUpdate::Collider(id, prev);
            },
            TileDataUpdate::Property(id, value) => {
                let mut properties = GridMap::new();
                core::mem::swap(&mut properties, &mut data.properties);
                let prev = match value {
                    Some(x) => properties.insert(id, x),
                    None => properties.remove(&id),
                };
                data.properties = properties;
                *self = TileDataUpdate::Property(id, prev);
            },
            TileDataUpdate::PropertySlice(id, slots) => {
                let mut properties = GridMap::new();
                core::mem::swap(&mut properties, &mut data.properties);
                let stored = match properties.get(&id) {
                    Some(TileSetPropertyValue::NineSlice(v0)) => Some(*v0),
                    Some(_) => {
                        data.properties = properties;
                        *self = TileDataUpdate::PropertySlice(id, slots);
                        return ;
                    },
                    None => None,
                };
                match stored {
                    Some(v0) => {
                        let s = slots;
                        let merged: [i8; 9] = [
                            pick_i8(s[0], v0[0]),
                            pick_i8(s[1], v0[1]),
                            pick_i8(s[2], v0[2]),
                            pick_i8(s[3], v0[3]),
                            pick_i8(s[4], v0[4]),
                            pick_i8(s[5], v0[5]),
                            pick_i8(s[6], v0[6]),
                            pick_i8(s[7], v0[7]),
                            pick_i8(s[8], v0[8]),
                        ];
                        let back: [Option<i8>; 9] = [
                            if s[0].is_some() { Some(v0[0]) } else { None },
                            if s[1].is_some() { Some(v0[1]) } else { None },
                            if s[2].is_some() { Some(v0[2]) } else { None },
                            if s[3].is_some() { Some(v0[3]) } else { None },
                            if s[4].is_some() { Some(v0[4]) } else { None },
                            if s[5].is_some() { Some(v0[5]) } else { None },
                            if s[6].is_some() { Some(v0[6]) } else { None },
                            if s[7].is_some() { Some(v0[7]) } else { None },
                            if s[8].is_some() { Some(v0[8]) } else { None },
                        ];
                        let ghost p0 = properties@;
                        properties.insert(id, TileSetPropertyValue::NineSlice(merged));
                        proof {
                            assert(properties@.remove(id) =~= p0.remove(id));
                        }
                        data.properties = properties;
                        *self = TileDataUpdate::PropertySlice(id, back);
                    },
                    None => {
                        let s = slots;
                        let filled: [i8; 9] = [
                            pick_i8(s[0], 0),
                            pick_i8(s[1], 0),
                            pick_i8(s[2], 0),
                            pick_i8(s[3], 0),
                            pick_i8(s[4], 0),
                            pick_i8(s[5], 0),
                            pick_i8(s[6], 0),
                            pick_i8(s[7], 0),
                            pick_i8(s[8], 0),
                        ];
                        let ghost p0 = properties@;
                        properties.insert(id, TileSetPropertyValue::NineSlice(filled));
                        proof {
                            assert(properties@.remove(id) =~= p0);
                        }
                        data.properties = properties;
                        *self = TileDataUpdate::Property(id, None);
                    },
                }
            },
            _ => {
                proof {
                    assert(false);
                }
            },
        }
    }
}

/// Applying a swap twice against the same record restores the record: the
/// second swap writes back exactly what the first swap took out.
pub proof fn lemma_swap_twice_restores_data(
    u0: TileDataUpdate,
    d0: TileData,
    u1: TileDataUpdate,
    d1: TileData,
    u2: TileDataUpdate,
    d2: TileData,
)
    requires
        data_swappable(u0),
        swap_rel(u0, d0, u1, d1),
        swap_rel(u1, d1, u2, d2),
    ensures
        d2.color == d0.color,
        d2.properties@ == d0.properties@,
        d2.collider@ == d0.collider@,
{
    match u0 {
        TileDataUpdate::MaterialTile(td) => {},
        TileDataUpdate::FreeformTile(def) => {},
        TileDataUpdate::Color(c) => {},
        TileDataUpdate::Collider(id, v) => {
            match v {
                Some(x) => {
                    assert(d2.collider@ =~= d0.collider@);
                },
                None => {
                    assert(d2.collider@ =~= d0.collider@);
                },
            }
        },
        TileDataUpdate::Property(id, v) => {
            match v {
                Some(x) => {
                    assert(d2.properties@ =~= d0.properties@);
                },
                None => {
                    assert(d2.properties@ =~= d0.properties@);
                },
            }
        },
        TileDataUpdate::PropertySlice(id, slots) => {
            if d0.properties@.contains_key(id) {
                match d0.properties@[id] {
                    TileSetPropertyValue::NineSlice(v0) => {
                        // the first swap merges the given slots in; the
                        // second swaps the old values back
                        match d1.properties@[id] {
                            TileSetPropertyValue::NineSlice(v1) => {
                                match d2.properties@[id] {
                                    TileSetPropertyValue::NineSlice(v2) => {
                                        assert forall|k: int| 0 <= k < 9 implies #[trigger] v2@[k]
                                            == v0@[k] by {
                                            if slots@[k] is Some {
                                            } else {
                                            }
                                        }
                                        assert(v2@ =~= v0@);
                                        assert(v2 == v0);
                                        assert(d2.properties@ =~= d0.properties@) by {
                                            assert(d2.properties@.remove(id) =~= d0.properties@.remove(
                                                id,
                                            ));
                                            assert forall|kk: PropertyId|
                                                #[trigger] d0.properties@.contains_key(kk) implies d2.properties@.contains_key(
                                                kk,
                                            ) && d2.properties@[kk] == d0.properties@[kk] by {
                                                if kk != id {
                                                    assert(d2.properties@.remove(id).contains_key(
                                                        kk,
                                                    ) && d2.properties@.remove(id)[kk]
                                                        == d0.properties@.remove(id)[kk]);
                                                }
                                            }
                                            assert forall|kk: PropertyId|
                                                #[trigger] d2.properties@.contains_key(kk) implies d0.properties@.contains_key(
                                                kk,
                                            ) by {
                                                if kk != id {
                                                    assert(d0.properties@.remove(id).contains_key(
                                                        kk,
                                                    ));
                                                }
                                            }
                                        }
                                    },
                                    _ => {},
                                }
                            },
                            _ => {},
                        }
                    },
                    _ => {},
                }
            } else {
                // the first swap inserts a fresh nine-slice; the second,
                // now a plain property erasure, removes it again
                assert(d2.properties@ =~= d0.properties@);
            }
        },
        _ => {},
    }
}


/// This represents a change to some pages of a tile set, without
/// specifying which tile set.
pub type TileSetUpdate = GridMap<TileDefinitionHandle, TileDataUpdate>;

/// The handle of the tile at `pos` on the page at `page`; meaningful when
/// both positions fit the 16-bit palette range.
pub open spec fn packed(page: Vector2I, pos: Vector2I) -> TileDefinitionHandle {
    TileDefinitionHandle {
        page: crate::handle::PalettePosition { x: page.x as i16, y: page.y as i16 },
        tile: crate::handle::PalettePosition { x: pos.x as i16, y: pos.y as i16 },
    }
}

/// What resolving one cell of a position diff against a tile set leaves in
/// the tile-set update, by page kind.
pub open spec fn update_expected(
    kind: TileSetPageSource,
    transforms: Seq<crate::tile_set::TransformRule>,
    defs: Map<TileDefinitionHandle, TileDefinition>,
    v: Option<RotTileHandle>,
    u: TileDataUpdate,
) -> bool {
    match kind {
        TileSetPageSource::Material => match v {
            Some(_) => match u {
                TileDataUpdate::MaterialTile(td) => {
                    &&& td.color == (Color { r: 255u8, g: 255u8, b: 255u8, a: 255u8 })
                    &&& td.properties@ == Map::<PropertyId, TileSetPropertyValue>::empty()
                    &&& td.collider@ == Map::<PropertyId, crate::tile_set::TileCollider>::empty()
                },
                _ => false,
            },
            None => u is Erase,
        },
        TileSetPageSource::Freeform => match v {
            Some((trans, handle)) => {
                let resolved = match crate::tile_set::rule_lookup(transforms, trans, handle) {
                    Some(h2) => h2,
                    None => handle,
                };
                if defs.contains_key(resolved) {
                    match u {
                        TileDataUpdate::FreeformTile(def) => {
                            let stored = defs[resolved];
                            &&& def.material_bounds == stored.material_bounds
                            &&& def.data.color == stored.data.color
                            &&& def.data.properties@ == stored.data.properties@
                            &&& def.data.collider@ == stored.data.collider@
                        },
                        _ => false,
                    }
                } else {
                    u is Erase
                }
            },
            None => u is Erase,
        },
        TileSetPageSource::TransformSet => match v {
            Some((trans, handle)) => u == TileDataUpdate::TransformSet(
                Some(
                    match crate::tile_set::rule_lookup(transforms, trans, handle) {
                        Some(h2) => h2,
                        None => handle,
                    },
                ),
            ),
            None => u == TileDataUpdate::TransformSet(None::<TileDefinitionHandle>),
        },
    }
}

/// What a whole conversion pass guarantees: every diff cell whose handle
/// fits the palette range resolves per the page kind, and every other
/// entry of the update is untouched.
pub open spec fn convert_post(
    m0: Map<TileDefinitionHandle, TileDataUpdate>,
    m1: Map<TileDefinitionHandle, TileDataUpdate>,
    tiles: Map<Vector2I, Option<RotTileHandle>>,
    kind: TileSetPageSource,
    transforms: Seq<crate::tile_set::TransformRule>,
    defs: Map<TileDefinitionHandle, TileDefinition>,
    page: Vector2I,
) -> bool {
    &&& forall|pos: Vector2I|
        #[trigger] tiles.contains_key(pos) && crate::handle::fits_palette(page)
            && crate::handle::fits_palette(pos) ==> m1.contains_key(packed(page, pos))
            && update_expected(kind, transforms, defs, tiles[pos], m1[packed(page, pos)])
    &&& forall|h: TileDefinitionHandle|
        (forall|pos: Vector2I|
            #[trigger] tiles.contains_key(pos) ==> !(crate::handle::fits_palette(page)
                && crate::handle::fits_palette(pos) && h == packed(page, pos))) ==> #[trigger] map_at(
            m1,
            h,
        ) == map_at(m0, h)
}

impl TileSetUpdate {
    /// Attempt to fill this update based upon a position diff. The diff
    /// contains only positions, transformations and handles for the tiles
    /// that are to be written; this resolves each cell against the given
    /// tile set, as appropriate for the kind of the page being updated.
    /// Nothing is done if the given page does not exist.
    pub fn convert(&mut self, tiles: &TransTilesUpdate, tile_set: &TileSet, page: Vector2I)
        ensures
            match map_at(tile_set.pages_view(), page) {
                None => final(self)@ == old(self)@,
                Some(kind) => convert_post(
                    old(self)@,
                    final(self)@,
                    tiles@,
                    kind,
                    tile_set.transforms_view(),
                    tile_set.definitions_view(),
                    page,
                ),
            },
    {
        let kind = match tile_set.get_page(page) {
            None => {
                return ;
            },
            Some(kind) => kind,
        };
        tiles.observe();
        let ghost s = tiles.entries_view();
        let ghost m0 = self@;
        let n = tiles.len();
        let mut i: usize = 0;
        while i < n
            invariant
                i <= n,
                n == s.len(),
                s == tiles.entries_view(),
                crate::grid_map::distinct_keys(s),
                map_at(tile_set.pages_view(), page) == Some(kind),
                forall|j: int|
                    0 <= j < n ==> tiles@.contains_key((#[trigger] s[j]).0) && tiles@[s[j].0]
                        == s[j].1,
                forall|j: int|
                    0 <= j < i && crate::handle::fits_palette(page) && crate::handle::fits_palette(
                        (#[trigger] s[j]).0,
                    ) ==> self@.contains_key(packed(page, s[j].0)) && update_expected(
                        kind,
                        tile_set.transforms_view(),
                        tile_set.definitions_view(),
                        s[j].1,
                        self@[packed(page, s[j].0)],
                    ),
                forall|h: TileDefinitionHandle|
                    (forall|j: int|
                        0 <= j < i ==> !(crate::handle::fits_palette(page)
                            && crate::handle::fits_palette((#[trigger] s[j]).0) && h == packed(
                            page,
                            s[j].0,
                        ))) ==> #[trigger] map_at(self@, h) == map_at(m0, h),
            decreases n - i,
        {
            let e = tiles.entry_at(i);
            let pos = e.0;
            let value = *e.1;
            let ghost pre = self@;
            match TileDefinitionHandle::try_new(page, pos) {
                Some(handle) => {
                    proof {
                        assert(handle == packed(page, pos));
                    }
                    let entry = match kind {
                        TileSetPageSource::Material => match value {
                            Some(_) => TileDataUpdate::MaterialTile(TileData::new()),
                            None => TileDataUpdate::Erase,
                        },
                        TileSetPageSource::Freeform => match value {
                            Some((trans, h0)) => match tile_set.get_transformed_definition(
                                trans,
                                h0,
                            ) {
                                Some(def) => TileDataUpdate::FreeformTile(def),
                                None => TileDataUpdate::Erase,
                            },
                            None => TileDataUpdate::Erase,
                        },
                        TileSetPageSource::TransformSet => match value {
                            Some((trans, h0)) => {
                                let resolved = match tile_set.get_transformed_version(trans, h0) {
                                    Some(h2) => h2,
                                    None => h0,
                                };
                                TileDataUpdate::TransformSet(Some(resolved))
                            },
                            None => TileDataUpdate::TransformSet(None),
                        },
                    };
                    self.insert(handle, entry);
                    proof {
                        assert(crate::handle::fits_palette(page) && crate::handle::fits_palette(
                            pos,
                        ));
                    }
                },
                None => {},
            }
            proof {
                assert forall|j: int|
                    0 <= j < i + 1 && crate::handle::fits_palette(page)
                        && crate::handle::fits_palette((#[trigger] s[j]).0) implies self@.contains_key(
                    packed(page, s[j].0),
                ) && update_expected(
                    kind,
                    tile_set.transforms_view(),
                    tile_set.definitions_view(),
                    s[j].1,
                    self@[packed(page, s[j].0)],
                ) by {
                    if j < i && crate::handle::fits_palette(page) && crate::handle::fits_palette(
                        s[i as int].0,
                    ) && packed(page, s[j].0) == packed(page, s[i as int].0) {
                        assert(s[j].0.x as i16 == s[i as int].0.x as i16);
                        assert(s[j].0.y as i16 == s[i as int].0.y as i16);
                        assert(s[j].0.x == (s[j].0.x as i16) as i32 && s[i as int].0.x == (s[
                            i as int
                        ].0.x as i16) as i32);
                        assert(s[j].0.y == (s[j].0.y as i16) as i32 && s[i as int].0.y == (s[
                            i as int
                        ].0.y as i16) as i32);
                        assert(s[j].0 == s[i as int].0);
                    }
                    if j < i && !(crate::handle::fits_palette(page)
                        && crate::handle::fits_palette(s[i as int].0)) {
                        assert(self@ == pre);
                    }
                }
                assert forall|h: TileDefinitionHandle|
                    (forall|j: int|
                        0 <= j < i + 1 ==> !(crate::handle::fits_palette(page)
                            && crate::handle::fits_palette((#[trigger] s[j]).0) && h == packed(
                            page,
                            s[j].0,
                        ))) implies #[trigger] map_at(self@, h) == map_at(m0, h) by {
                    assert(!(crate::handle::fits_palette(page) && crate::handle::fits_palette(
                        s[i as int].0,
                    ) && h == packed(page, s[i as int].0)));
                    assert(map_at(pre, h) == map_at(m0, h));
                }
            }
            i = i + 1;
        }
        proof {
            assert forall|pos: Vector2I|
                #[trigger] tiles@.contains_key(pos) && crate::handle::fits_palette(page)
                    && crate::handle::fits_palette(pos) implies self@.contains_key(
                packed(page, pos),
            ) && update_expected(
                kind,
                tile_set.transforms_view(),
                tile_set.definitions_view(),
                tiles@[pos],
                self@[packed(page, pos)],
            ) by {
                let j = choose|j: int| 0 <= j < s.len() && (#[trigger] s[j]).0 == pos;
            }
            assert forall|h: TileDefinitionHandle|
                (forall|pos: Vector2I|
                    #[trigger] tiles@.contains_key(pos) ==> !(crate::handle::fits_palette(page)
                        && crate::handle::fits_palette(pos) && h == packed(page, pos))) implies #[trigger] map_at(
                self@,
                h,
            ) == map_at(m0, h) by {
                assert forall|j: int|
                    0 <= j < n implies !(crate::handle::fits_palette(page)
                        && crate::handle::fits_palette((#[trigger] s[j]).0) && h == packed(
                        page,
                        s[j].0,
                    )) by {
                    assert(tiles@.contains_key(s[j].0));
                }
            }
        }
    }

    /// Construct a position update by finding the transformed version of
    /// each tile of a position diff in the given tile set.
    pub fn build_tiles_update(tiles: &TransTilesUpdate, tile_set: &TileSet) -> (result:
        TilesUpdate)
        ensures
            forall|pos: Vector2I|
                #[trigger] tiles@.contains_key(pos) ==> result@.contains_key(pos) && result@[pos]
                    == (match tiles@[pos] {
                    Some((trans, handle)) => Some(
                        match crate::tile_set::rule_lookup(
                            tile_set.transforms_view(),
                            trans,
                            handle,
                        ) {
                            Some(h2) => h2,
                            None => handle,
                        },
                    ),
                    None => None::<TileDefinitionHandle>,
                }),
            forall|pos: Vector2I|
                !(#[trigger] tiles@.contains_key(pos)) ==> !result@.contains_key(pos),
    {
        tiles.observe();
        let ghost s = tiles.entries_view();
        let mut result: TilesUpdate = BoundedGridMap::new();
        let n = tiles.len();
        let mut i: usize = 0;
        while i < n
            invariant
                i <= n,
                n == s.len(),
                s == tiles.entries_view(),
                crate::grid_map::distinct_keys(s),
                forall|j: int|
                    0 <= j < n ==> tiles@.contains_key((#[trigger] s[j]).0) && tiles@[s[j].0]
                        == s[j].1 && vec_ok(s[j].0),
                forall|j: int|
                    0 <= j < i ==> result@.contains_key((#[trigger] s[j]).0) && result@[s[j].0]
                        == (match s[j].1 {
                        Some((trans, handle)) => Some(
                            match crate::tile_set::rule_lookup(
                                tile_set.transforms_view(),
                                trans,
                                handle,
                            ) {
                                Some(h2) => h2,
                                None => handle,
                            },
                        ),
                        None => None::<TileDefinitionHandle>,
                    }),
                forall|pos: Vector2I|
                    #[trigger] result@.contains_key(pos) ==> exists|j: int|
                        0 <= j < i && (#[trigger] s[j]).0 == pos,
            decreases n - i,
        {
            let e = tiles.entry_at(i);
            let pos = e.0;
            match *e.1 {
                Some((trans, handle)) => {
                    let resolved = match tile_set.get_transformed_version(trans, handle) {
                        Some(h2) => h2,
                        None => handle,
                    };
                    result.insert(pos, Some(resolved));
                },
                None => {
                    result.insert(pos, None);
                },
            }
            i = i + 1;
        }
        proof {
            assert forall|pos: Vector2I| #[trigger] tiles@.contains_key(pos) implies result@.contains_key(
                pos,
            ) && result@[pos] == (match tiles@[pos] {
                Some((trans, handle)) => Some(
                    match crate::tile_set::rule_lookup(tile_set.transforms_view(), trans, handle) {
                        Some(h2) => h2,
                        None => handle,
                    },
                ),
                None => None::<TileDefinitionHandle>,
            }) by {
                let j = choose|j: int| 0 <= j < s.len() && (#[trigger] s[j]).0 == pos;
            }
        }
        result
    }
}

impl Tiles {
    /// Apply the changes in the given position update and modify it so
    /// that it contains the tiles required to undo the change: each listed
    /// cell swaps its update value with the container's tile at that cell.
    /// Calling this twice with the same update object does the changes and
    /// then undoes them, leaving the tiles unchanged in the end.
    pub fn swap_tiles(&mut self, updates: &mut TilesUpdate)
        ensures
            forall|pos: Vector2I|
                #[trigger] old(updates)@.contains_key(pos) ==> final(updates)@.contains_key(pos)
                    && final(updates)@[pos] == (if old(self)@.contains_key(pos) {
                    Some(old(self)@[pos])
                } else {
                    None::<TileDefinitionHandle>
                }) && (match old(updates)@[pos] {
                    Some(h) => final(self)@.contains_key(pos) && final(self)@[pos] == h,
                    None => !final(self)@.contains_key(pos),
                }),
            forall|pos: Vector2I|
                !(#[trigger] old(updates)@.contains_key(pos)) ==> map_at(final(self)@, pos)
                    == map_at(old(self)@, pos) && final(updates)@.contains_key(pos) == old(
                    updates,
                )@.contains_key(pos),
    {
        updates.observe();
        let ghost s0 = updates.entries_view();
        let ghost t0 = self@;
        let ghost u0 = updates@;
        let n = updates.len();
        let mut i: usize = 0;
        while i < n
            invariant
                i <= n,
                n == s0.len(),
                crate::grid_map::distinct_keys(s0),
                updates.entries_view().len() == n,
                forall|j: int|
                    0 <= j < n ==> (#[trigger] updates.entries_view()[j]).0 == s0[j].0,
                forall|j: int|
                    i <= j < n ==> (#[trigger] updates.entries_view()[j]).1 == s0[j].1,
                forall|j: int|
                    0 <= j < n ==> vec_ok((#[trigger] s0[j]).0) && u0.contains_key(s0[j].0)
                        && u0[s0[j].0] == s0[j].1,
                forall|j: int|
                    0 <= j < i ==> updates@.contains_key((#[trigger] s0[j]).0)
                        && updates@[s0[j].0] == (if t0.contains_key(s0[j].0) {
                        Some(t0[s0[j].0])
                    } else {
                        None::<TileDefinitionHandle>
                    }),
                forall|pos: Vector2I|
                    (forall|j: int| 0 <= j < i ==> pos != (#[trigger] s0[j]).0)
                        ==> map_at(updates@, pos) == map_at(u0, pos),
                forall|j: int|
                    0 <= j < i ==> (match s0[j].1 {
                        Some(h) => self@.contains_key((#[trigger] s0[j]).0) && self@[s0[j].0] == h,
                        None => !self@.contains_key((#[trigger] s0[j]).0),
                    }),
                forall|pos: Vector2I|
                    (forall|j: int| 0 <= j < i ==> pos != (#[trigger] s0[j]).0) ==> map_at(
                        self@,
                        pos,
                    ) == map_at(t0, pos),
            decreases n - i,
        {
            let e = updates.entry_at(i);
            let pos = e.0;
            let value = *e.1;
            let ghost tiles_pre = self@;
            let ghost upd_pre = updates@;
            proof {
                assert(pos == s0[i as int].0);
                assert(value == s0[i as int].1);
                assert forall|j: int| 0 <= j < i implies pos != (#[trigger] s0[j]).0 by {}
                assert(map_at(tiles_pre, pos) == map_at(t0, pos));
            }
            let prev = match value {
                Some(h) => self.insert(pos, h),
                None => self.remove(pos),
            };
            updates.set_value_at(i, prev);
            proof {
                assert forall|j: int|
                    0 <= j < i + 1 implies updates@.contains_key((#[trigger] s0[j]).0)
                    && updates@[s0[j].0] == (if t0.contains_key(s0[j].0) {
                    Some(t0[s0[j].0])
                } else {
                    None::<TileDefinitionHandle>
                }) by {
                    if j < i {
                        assert(s0[j].0 != pos);
                        assert(upd_pre.contains_key(s0[j].0) && upd_pre[s0[j].0] == (
                        if t0.contains_key(s0[j].0) {
                            Some(t0[s0[j].0])
                        } else {
                            None::<TileDefinitionHandle>
                        }));
                    }
                }
                assert forall|j: int|
                    0 <= j < i + 1 implies (match s0[j].1 {
                    Some(h) => self@.contains_key((#[trigger] s0[j]).0) && self@[s0[j].0] == h,
                    None => !self@.contains_key((#[trigger] s0[j]).0),
                }) by {
                    if j < i {
                        assert(s0[j].0 != pos);
                    }
                }
            }
            i = i + 1;
        }
        proof {
            assert forall|pos: Vector2I| #[trigger] u0.contains_key(pos) implies updates@.contains_key(
                pos,
            ) && updates@[pos] == (if t0.contains_key(pos) {
                Some(t0[pos])
            } else {
                None::<TileDefinitionHandle>
            }) && (match u0[pos] {
                Some(h) => self@.contains_key(pos) && self@[pos] == h,
                None => !self@.contains_key(pos),
            }) by {
                let j = choose|j: int| 0 <= j < s0.len() && (#[trigger] s0[j]).0 == pos;
            }
            assert forall|pos: Vector2I| !(#[trigger] u0.contains_key(pos)) implies map_at(
                self@,
                pos,
            ) == map_at(t0, pos) && updates@.contains_key(pos) == u0.contains_key(pos) by {
                assert forall|j: int| 0 <= j < n implies pos != (#[trigger] s0[j]).0 by {
                    assert(u0.contains_key(s0[j].0));
                }
                assert(map_at(updates@, pos) == map_at(u0, pos));
            }
        }
    }
}


/// A nine-slot array with one slot replaced.
fn set_slot9(a: [i8; 9], k: usize, v: i8) -> (r: [i8; 9])
    requires
        k < 9,
    ensures
        forall|i: int| 0 <= i < 9 && i != k ==> #[trigger] r@[i] == a@[i],
        r@[k as int] == v,
{
    [
        if k == 0 { v } else { a[0] },
        if k == 1 { v } else { a[1] },
        if k == 2 { v } else { a[2] },
        if k == 3 { v } else { a[3] },
        if k == 4 { v } else { a[4] },
        if k == 5 { v } else { a[5] },
        if k == 6 { v } else { a[6] },
        if k == 7 { v } else { a[7] },
        if k == 8 { v } else { a[8] },
    ]
}

/// A nine-slot option array with one slot replaced.
fn set_opt_slot9(a: [Option<i8>; 9], k: usize, v: Option<i8>) -> (r: [Option<i8>; 9])
    requires
        k < 9,
    ensures
        forall|i: int| 0 <= i < 9 && i != k ==> #[trigger] r@[i] == a@[i],
        r@[k as int] == v,
{
    [
        if k == 0 { v } else { a[0] },
        if k == 1 { v } else { a[1] },
        if k == 2 { v } else { a[2] },
        if k == 3 { v } else { a[3] },
        if k == 4 { v } else { a[4] },
        if k == 5 { v } else { a[5] },
        if k == 6 { v } else { a[6] },
        if k == 7 { v } else { a[7] },
        if k == 8 { v } else { a[8] },
    ]
}

impl TileSetUpdate {
    /// Get the color being set onto the given tile by this update, if a
    /// color is being set.
    pub fn get_color(&self, page: Vector2I, position: Vector2I) -> (r: Option<Color>)
        ensures
            r == (if crate::handle::fits_palette(page) && crate::handle::fits_palette(position)
                && self@.contains_key(packed(page, position)) {
                match self@[packed(page, position)] {
                    TileDataUpdate::Erase => Some(Color { r: 255u8, g: 255u8, b: 255u8, a: 255u8 }),
                    TileDataUpdate::MaterialTile(ref data) => Some(data.color),
                    TileDataUpdate::FreeformTile(ref def) => Some(def.data.color),
                    TileDataUpdate::Color(color) => Some(color),
                    _ => None::<Color>,
                }
            } else {
                None::<Color>
            }),
    {
        let handle = match TileDefinitionHandle::try_new(page, position) {
            Some(h) => h,
            None => {
                return None;
            },
        };
        match self.get(&handle) {
            None => None,
            Some(TileDataUpdate::Erase) => Some(Color::default()),
            Some(TileDataUpdate::MaterialTile(data)) => Some(data.color),
            Some(TileDataUpdate::FreeformTile(def)) => Some(def.data.color),
            Some(TileDataUpdate::Color(color)) => Some(*color),
            Some(_) => None,
        }
    }

    /// Get the material being set onto the given tile by this update, if a
    /// material is being set.
    pub fn get_material(&self, page: Vector2I, position: Vector2I) -> (r: Option<MaterialUpdate>)
        ensures
            r == (if crate::handle::fits_palette(page) && crate::handle::fits_palette(position)
                && self@.contains_key(packed(page, position)) {
                match self@[packed(page, position)] {
                    TileDataUpdate::Erase => Some(MaterialUpdate::Erase),
                    TileDataUpdate::FreeformTile(ref def) => Some(
                        MaterialUpdate::Replace(def.material_bounds),
                    ),
                    TileDataUpdate::Material(mat) => Some(MaterialUpdate::Replace(mat)),
                    _ => None::<MaterialUpdate>,
                }
            } else {
                None::<MaterialUpdate>
            }),
    {
        let handle = match TileDefinitionHandle::try_new(page, position) {
            Some(h) => h,
            None => {
                return None;
            },
        };
        match self.get(&handle) {
            None => None,
            Some(TileDataUpdate::Erase) => Some(MaterialUpdate::Erase),
            Some(TileDataUpdate::FreeformTile(def)) => Some(
                MaterialUpdate::Replace(def.material_bounds),
            ),
            Some(TileDataUpdate::Material(mat)) => Some(MaterialUpdate::Replace(*mat)),
            Some(_) => None,
        }
    }

    /// Get the tile bounds being set onto the given tile by this update,
    /// if possible.
    pub fn get_tile_bounds(&self, page: Vector2I, position: Vector2I) -> (r: Option<
        crate::tile_set::TileBounds,
    >)
        ensures
            r == (if crate::handle::fits_palette(page) && crate::handle::fits_palette(position)
                && self@.contains_key(packed(page, position)) {
                match self@[packed(page, position)] {
                    TileDataUpdate::Erase => Some(
                        crate::tile_set::TileBounds {
                            left_bottom: Vector2I { x: 0, y: 0 },
                            right_top: Vector2I { x: 0, y: 0 },
                        },
                    ),
                    TileDataUpdate::FreeformTile(ref def) => Some(def.material_bounds.bounds),
                    TileDataUpdate::Material(mat) => Some(mat.bounds),
                    _ => None::<crate::tile_set::TileBounds>,
                }
            } else {
                None::<crate::tile_set::TileBounds>
            }),
    {
        let handle = match TileDefinitionHandle::try_new(page, position) {
            Some(h) => h,
            None => {
                return None;
            },
        };
        match self.get(&handle) {
            None => None,
            Some(TileDataUpdate::Erase) => Some(crate::tile_set::TileBounds::default()),
            Some(TileDataUpdate::FreeformTile(def)) => Some(def.material_bounds.bounds),
            Some(TileDataUpdate::Material(mat)) => Some(mat.bounds),
            Some(_) => None,
        }
    }

    /// Get the value of the given property being set onto the given tile
    /// by this update, if possible.
    pub fn get_property(&self, page: Vector2I, position: Vector2I, property_id: PropertyId) -> (r:
        Option<Option<TileSetPropertyValue>>)
        ensures
            r == (if crate::handle::fits_palette(page) && crate::handle::fits_palette(position)
                && self@.contains_key(packed(page, position)) {
                match self@[packed(page, position)] {
                    TileDataUpdate::Erase => Some(None::<TileSetPropertyValue>),
                    TileDataUpdate::MaterialTile(ref data) => Some(
                        map_at(data.properties@, property_id),
                    ),
                    TileDataUpdate::FreeformTile(ref def) => Some(
                        map_at(def.data.properties@, property_id),
                    ),
                    TileDataUpdate::Property(id, ref value) => if id == property_id {
                        Some(*value)
                    } else {
                        None::<Option<TileSetPropertyValue>>
                    },
                    _ => None::<Option<TileSetPropertyValue>>,
                }
            } else {
                None::<Option<TileSetPropertyValue>>
            }),
    {
        let handle = match TileDefinitionHandle::try_new(page, position) {
            Some(h) => h,
            None => {
                return None;
            },
        };
        match self.get(&handle) {
            None => None,
            Some(TileDataUpdate::Erase) => Some(None),
            Some(TileDataUpdate::MaterialTile(data)) => {
                match data.properties.get(&property_id) {
                    Some(v) => Some(Some(*v)),
                    None => Some(None),
                }
            },
            Some(TileDataUpdate::FreeformTile(def)) => {
                match def.data.properties.get(&property_id) {
                    Some(v) => Some(Some(*v)),
                    None => Some(None),
                }
            },
            Some(TileDataUpdate::Property(id, value)) => {
                if *id == property_id {
                    Some(*value)
                } else {
                    None
                }
            },
            Some(_) => None,
        }
    }

    /// Get the value of the given collider being set onto the given tile
    /// by this update, if possible.
    pub fn get_collider(&self, page: Vector2I, position: Vector2I, collider_id: PropertyId) -> (r:
        Option<Option<crate::tile_set::TileCollider>>)
        ensures
            r == (if crate::handle::fits_palette(page) && crate::handle::fits_palette(position)
                && self@.contains_key(packed(page, position)) {
                match self@[packed(page, position)] {
                    TileDataUpdate::Erase => Some(None::<crate::tile_set::TileCollider>),
                    TileDataUpdate::MaterialTile(ref data) => Some(
                        map_at(data.collider@, collider_id),
                    ),
                    TileDataUpdate::FreeformTile(ref def) => Some(
                        map_at(def.data.collider@, collider_id),
                    ),
                    TileDataUpdate::Collider(id, ref value) => if id == collider_id {
                        Some(*value)
                    } else {
                        None::<Option<crate::tile_set::TileCollider>>
                    },
                    _ => None::<Option<crate::tile_set::TileCollider>>,
                }
            } else {
                None::<Option<crate::tile_set::TileCollider>>
            }),
    {
        let handle = match TileDefinitionHandle::try_new(page, position) {
            Some(h) => h,
            None => {
                return None;
            },
        };
        match self.get(&handle) {
            None => None,
            Some(TileDataUpdate::Erase) => Some(None),
            Some(TileDataUpdate::MaterialTile(data)) => {
                match data.collider.get(&collider_id) {
                    Some(v) => Some(Some(*v)),
                    None => Some(None),
                }
            },
            Some(TileDataUpdate::FreeformTile(def)) => {
                match def.data.collider.get(&collider_id) {
                    Some(v) => Some(Some(*v)),
                    None => Some(None),
                }
            },
            Some(TileDataUpdate::Collider(id, value)) => {
                if *id == collider_id {
                    Some(*value)
                } else {
                    None
                }
            },
            Some(_) => None,
        }
    }

    /// Set the given color on the given tile.
    pub fn set_color(&mut self, page: Vector2I, position: Vector2I, color: Color)
        ensures
            crate::handle::fits_palette(page) && crate::handle::fits_palette(position) ==> final(self)@ == old(self)@.insert(packed(page, position), TileDataUpdate::Color(color)),
            !(crate::handle::fits_palette(page) && crate::handle::fits_palette(position)) ==> final(self)@ == old(self)@,
    {
        match TileDefinitionHandle::try_new(page, position) {
            Some(handle) => {
                self.insert(handle, TileDataUpdate::Color(color));
            },
            None => {},
        }
    }

    /// Set the given property value on the given tile.
    pub fn set_property(
        &mut self,
        page: Vector2I,
        position: Vector2I,
        property_id: PropertyId,
        value: Option<TileSetPropertyValue>,
    )
        ensures
            crate::handle::fits_palette(page) && crate::handle::fits_palette(position) ==> final(self)@ == old(self)@.insert(
                packed(page, position),
                TileDataUpdate::Property(property_id, value),
            ),
            !(crate::handle::fits_palette(page) && crate::handle::fits_palette(position)) ==> final(self)@ == old(self)@,
    {
        match TileDefinitionHandle::try_new(page, position) {
            Some(handle) => {
                self.insert(handle, TileDataUpdate::Property(property_id, value));
            },
            None => {},
        }
    }

    /// Set the given collider value on the given tile; the collider's
    /// empty shape records a removal.
    pub fn set_collider(
        &mut self,
        page: Vector2I,
        position: Vector2I,
        collider_id: PropertyId,
        value: crate::tile_set::TileCollider,
    )
        ensures
            crate::handle::fits_palette(page) && crate::handle::fits_palette(position) ==> final(self)@ == old(self)@.insert(
                packed(page, position),
                TileDataUpdate::Collider(
                    collider_id,
                    match value {
                        crate::tile_set::TileCollider::Empty => None::<
                            crate::tile_set::TileCollider,
                        >,
                        x => Some(x),
                    },
                ),
            ),
            !(crate::handle::fits_palette(page) && crate::handle::fits_palette(position)) ==> final(self)@ == old(self)@,
    {
        let value = match value {
            crate::tile_set::TileCollider::Empty => None,
            x => Some(x),
        };
        match TileDefinitionHandle::try_new(page, position) {
            Some(handle) => {
                self.insert(handle, TileDataUpdate::Collider(collider_id, value));
            },
            None => {},
        }
    }

    /// Set the given material on the given tile.
    pub fn set_material(&mut self, page: Vector2I, position: Vector2I, value: TileMaterialBounds)
        ensures
            crate::handle::fits_palette(page) && crate::handle::fits_palette(position) ==> final(self)@ == old(self)@.insert(packed(page, position), TileDataUpdate::Material(value)),
            !(crate::handle::fits_palette(page) && crate::handle::fits_palette(position)) ==> final(self)@ == old(self)@,
    {
        match TileDefinitionHandle::try_new(page, position) {
            Some(handle) => {
                self.insert(handle, TileDataUpdate::Material(value));
            },
            None => {},
        }
    }

    /// Set the given value to the given slice of the given property of the
    /// given tile: the slice joins an update already aimed at the same
    /// property, and replaces any other update of the tile.
    pub fn set_property_slice(
        &mut self,
        page: Vector2I,
        position: Vector2I,
        subposition: Vector2I,
        property_id: PropertyId,
        value: i8,
    )
        requires
            0 <= subposition.x < 3,
            0 <= subposition.y < 3,
        ensures
            ({
                let index = subposition.x + subposition.y * 3;
                let h = packed(page, position);
                if crate::handle::fits_palette(page) && crate::handle::fits_palette(position) {
                    &&& final(self)@.contains_key(h)
                    &&& final(self)@.remove(h) == old(self)@.remove(h)
                    &&& match final(self)@[h] {
                        TileDataUpdate::PropertySlice(id, slots) => {
                            &&& id == property_id
                            &&& slots@[index] == Some(value)
                            &&& {
                                ||| (old(self)@.contains_key(h) && old(self)@[h] is PropertySlice
                                    && old(self)@[h]->PropertySlice_0 == property_id && forall|
                                    i: int,
                                |
                                    0 <= i < 9 && i != index ==> #[trigger] slots@[i] == old(
                                        self,
                                    )@[h]->PropertySlice_1@[i])
                                ||| (!old(self)@.contains_key(h) && forall|i: int|
                                    0 <= i < 9 && i != index ==> #[trigger] slots@[i] is None)
                            }
                        },
                        TileDataUpdate::Property(id, Some(
                            TileSetPropertyValue::NineSlice(slots),
                        )) => {
                            &&& id == property_id
                            &&& slots@[index] == value
                            &&& {
                                ||| (old(self)@.contains_key(h) && (old(
                                    self,
                                )@[h] matches TileDataUpdate::Property(
                                    id0,
                                    Some(TileSetPropertyValue::NineSlice(prev)),
                                ) && id0 == property_id && forall|i: int|
                                    0 <= i < 9 && i != index ==> #[trigger] slots@[i] == prev@[i]))
                                ||| (forall|i: int|
                                    0 <= i < 9 && i != index ==> #[trigger] slots@[i] == 0i8)
                            }
                        },
                        _ => false,
                    }
                } else {
                    final(self)@ == old(self)@
                }
            }),
    {
        let index = (subposition.x + subposition.y * 3) as usize;
        let handle = match TileDefinitionHandle::try_new(page, position) {
            Some(h) => h,
            None => {
                return ;
            },
        };
        let ghost m0 = self@;
        let current = self.remove(&handle);
        let replacement = match current {
            Some(TileDataUpdate::PropertySlice(uuid, d0)) => {
                if uuid == property_id {
                    TileDataUpdate::PropertySlice(uuid, set_opt_slot9(d0, index, Some(value)))
                } else {
                    let fresh = set_slot9([0i8; 9], index, value);
                    TileDataUpdate::Property(
                        property_id,
                        Some(TileSetPropertyValue::NineSlice(fresh)),
                    )
                }
            },
            Some(TileDataUpdate::Property(uuid, Some(TileSetPropertyValue::NineSlice(d0)))) => {
                if uuid == property_id {
                    TileDataUpdate::Property(
                        uuid,
                        Some(TileSetPropertyValue::NineSlice(set_slot9(d0, index, value))),
                    )
                } else {
                    let fresh = set_slot9([0i8; 9], index, value);
                    TileDataUpdate::Property(
                        property_id,
                        Some(TileSetPropertyValue::NineSlice(fresh)),
                    )
                }
            },
            Some(_) => {
                let fresh = set_slot9([0i8; 9], index, value);
                TileDataUpdate::Property(property_id, Some(TileSetPropertyValue::NineSlice(fresh)))
            },
            None => {
                let blank: [Option<i8>; 9] = [None, None, None, None, None, None, None, None, None];
                TileDataUpdate::PropertySlice(
                    property_id,
                    set_opt_slot9(blank, index, Some(value)),
                )
            },
        };
        self.insert(handle, replacement);
        proof {
            assert(self@.remove(handle) =~= m0.remove(handle));
        }
    }
}

} // verus!
