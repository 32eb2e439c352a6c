//! A volumetric visibility cache based on occlusion queries.
//!
//! The cache stores, per spatial cell and per scene object, the last known
//! tri-state visibility of the object from observer positions in that
//! cell. Positions are measured in integer milli-units, so the spatial
//! hashing and the distance-based eviction are exact integer arithmetic;
//! the caller converts its world positions to milli-units at the boundary.

use vstd::prelude::*;

use crate::geom::Vector3I;
use crate::grid_map::GridMap;

verus! {

/// A scene-object identity, opaque to the cache.
pub type NodeHandle = u64;

/// An observer position in milli-units: one unit of world space is 1000
/// milli-units.
#[derive(Clone, Copy, PartialEq, Eq, Structural, Hash, Debug)]
pub struct MilliPos {
    /// First coordinate, in milli-units.
    pub x: i64,
    /// Second coordinate, in milli-units.
    pub y: i64,
    /// Third coordinate, in milli-units.
    pub z: i64,
}

/// The number of milli-units in one world unit.
pub const MILLI: i64 = 1000;

/// The largest magnitude accepted of a milli-unit coordinate: positions
/// within sixteen million milli-units keep the eviction arithmetic within
/// 128-bit bounds.
pub const MILLI_LIMIT: i64 = 0x100_0000;

/// Whether a milli-unit position is small enough for the cache arithmetic.
pub open spec fn milli_ok(p: MilliPos) -> bool {
    &&& -MILLI_LIMIT <= p.x <= MILLI_LIMIT
    &&& -MILLI_LIMIT <= p.y <= MILLI_LIMIT
    &&& -MILLI_LIMIT <= p.z <= MILLI_LIMIT
}

/// The largest granularity accepted along an axis.
pub const GRANULARITY_LIMIT: u32 = 1024;

/// The cache's subdivision of the world, in cells per world unit along
/// each axis.
#[derive(Clone, Copy, PartialEq, Eq, Structural, Hash, Debug)]
pub struct Granularity {
    /// Cells per world unit along the first axis.
    pub x: u32,
    /// Cells per world unit along the second axis.
    pub y: u32,
    /// Cells per world unit along the third axis.
    pub z: u32,
}

/// Whether a granularity is usable: at least one cell per world unit, and
/// small enough for the cache arithmetic.
pub open spec fn granularity_ok(g: Granularity) -> bool {
    &&& 1 <= g.x <= GRANULARITY_LIMIT
    &&& 1 <= g.y <= GRANULARITY_LIMIT
    &&& 1 <= g.z <= GRANULARITY_LIMIT
}

/// Round a ratio `n / d` to the nearest integer, halves away from zero;
/// `d` must be positive.
pub open spec fn round_div(n: int, d: int) -> int {
    if n >= 0 {
        (n + d / 2) / d
    } else {
        -((-n + d / 2) / d)
    }
}

/// Round a ratio to the nearest integer, halves away from zero.
fn round_div_exec(n: i64, d: i64) -> (r: i64)
    requires
        1 <= d <= 0x7fff_ffff,
        -0x7fff_ffff_ffff <= n <= 0x7fff_ffff_ffff,
    ensures
        r == round_div(n as int, d as int),
{
    if n >= 0 {
        (n + d / 2) / d
    } else {
        -((-n + d / 2) / d)
    }
}

/// The spatial cell of a milli-unit position: each coordinate is scaled by
/// the granularity and rounded to the nearest integer.
pub open spec fn grid_cell(p: MilliPos, g: Granularity) -> Vector3I {
    Vector3I {
        x: round_div(p.x * g.x, MILLI as int) as i32,
        y: round_div(p.y * g.y, MILLI as int) as i32,
        z: round_div(p.z * g.z, MILLI as int) as i32,
    }
}

/// Whether the center of the cell `c` lies strictly within the distance
/// `threshold` (in milli-units) of the position `p`. The cell center along
/// an axis is `c / granularity` world units, so the comparison clears all
/// denominators and compares squared distances exactly.
pub open spec fn within_threshold(
    c: Vector3I,
    p: MilliPos,
    g: Granularity,
    threshold: i64,
) -> bool {
    let dx = (c.x * MILLI - p.x * g.x) * (g.y * g.z);
    let dy = (c.y * MILLI - p.y * g.y) * (g.x * g.z);
    let dz = (c.z * MILLI - p.z * g.z) * (g.x * g.y);
    let t = threshold * g.x * g.y * g.z;
    dx * dx + dy * dy + dz * dz < t * t
}

/// The visibility of one object from positions in one cell.
#[derive(Clone, Copy, PartialEq, Eq, Structural, Hash, Debug)]
pub enum Visibility {
    /// An occlusion query is in flight and has not resolved yet.
    Undefined,
    /// The last resolved query saw no visible fragment.
    Invisible,
    /// Some fragment of the object was visible; this is never downgraded.
    Visible,
}

impl Visibility {
    /// Whether a new occlusion query should be issued for an object in
    /// this state.
    pub fn needs_occlusion_query(self) -> (r: bool)
        ensures
            r == (self is Invisible),
    {
        match self {
            Visibility::Undefined => {
                // There's already an occlusion query on GPU.
                false
            },
            Visibility::Invisible => {
                // The object could be invisible from one angle at the observer
                // position, but visible from another. Since we're using only
                // position of the observer, we cannot be 100% sure that the
                // object is invisible even if a previous query told us so.
                true
            },
            Visibility::Visible => {
                // Some pixels of the object are visible from the given
                // observer position, so we don't need a new occlusion query.
                false
            },
        }
    }

    /// Whether an object in this state must be rendered: everything but a
    /// confirmed invisible object is drawn, so that pending queries do not
    /// make objects pop.
    pub fn needs_rendering(self) -> (r: bool)
        ensures
            r == !(self is Invisible),
    {
        match self {
            Visibility::Visible | Visibility::Undefined => true,
            Visibility::Invisible => false,
        }
    }
}

/// How a resolved occlusion query updates a cached visibility state:
/// `Visible` is never downgraded, `Invisible` is upgraded by a positive
/// sample, and a pending state resolves to what the query saw.
pub open spec fn resolve_visibility(v: Visibility, any_samples_passed: bool) -> Visibility {
    match v {
        Visibility::Undefined => if any_samples_passed {
            Visibility::Visible
        } else {
            Visibility::Invisible
        },
        Visibility::Invisible => if any_samples_passed {
            Visibility::Visible
        } else {
            Visibility::Invisible
        },
        Visibility::Visible => Visibility::Visible,
    }
}

/// Once visible, always visible: no query result downgrades `Visible`, a
/// positive sample upgrades `Invisible`, and a negative sample leaves
/// `Invisible` in place.
pub proof fn lemma_visibility_monotonic(v: Visibility, sample: bool)
    ensures
        v is Visible ==> resolve_visibility(v, sample) is Visible,
        v is Invisible && sample ==> resolve_visibility(v, sample) is Visible,
        v is Invisible && !sample ==> resolve_visibility(v, sample) is Invisible,
{
}

/// The largest magnitude of a spatial cell coordinate: what rounding a
/// bounded position scaled by a bounded granularity can produce.
pub const CELL_LIMIT: i32 = 0x200_0000;

/// Whether a spatial cell index is small enough for the eviction
/// arithmetic.
pub open spec fn cell_ok(c: Vector3I) -> bool {
    &&& -CELL_LIMIT <= c.x <= CELL_LIMIT
    &&& -CELL_LIMIT <= c.y <= CELL_LIMIT
    &&& -CELL_LIMIT <= c.z <= CELL_LIMIT
}

/// A sample sequence folded into a visibility state, oldest first.
pub open spec fn fold_resolve(v: Visibility, samples: Seq<bool>) -> Visibility
    decreases samples.len(),
{
    if samples.len() == 0 {
        v
    } else {
        resolve_visibility(fold_resolve(v, samples.drop_last()), samples.last())
    }
}

/// A visible state stays visible under any sequence of query results.
pub proof fn lemma_fold_resolve_visible(v: Visibility, samples: Seq<bool>)
    requires
        v is Visible,
    ensures
        fold_resolve(v, samples) is Visible,
    decreases samples.len(),
{
    if samples.len() > 0 {
        lemma_fold_resolve_visible(v, samples.drop_last());
    }
}

/// The results, oldest first, of the completed queries among the first `i`
/// pending queries that were issued from cell `c` against object `n`.
pub open spec fn samples_upto(
    pending: Seq<PendingQuery>,
    completions: Seq<Option<bool>>,
    g: Granularity,
    c: Vector3I,
    n: NodeHandle,
    i: int,
) -> Seq<bool>
    decreases i,
{
    if i <= 0 {
        Seq::empty()
    } else {
        let head = samples_upto(pending, completions, g, c, n, i - 1);
        if grid_cell(pending[i - 1].observer_position, g) == c && pending[i - 1].node == n
            && completions[i - 1] is Some {
            head.push(completions[i - 1]->Some_0)
        } else {
            head
        }
    }
}

/// When exactly one completed query among the first `k` aims at the cell
/// `c` and object `n`, the samples applied there are exactly that query's
/// result.
proof fn lemma_samples_single(
    pending: Seq<PendingQuery>,
    completions: Seq<Option<bool>>,
    g: Granularity,
    c: Vector3I,
    n: NodeHandle,
    i: int,
    k: int,
)
    requires
        completions.len() == pending.len(),
        0 <= i < pending.len(),
        0 <= k <= pending.len(),
        grid_cell(pending[i].observer_position, g) == c,
        pending[i].node == n,
        completions[i] is Some,
        forall|j: int|
            0 <= j < pending.len() && j != i ==> !(grid_cell(
                (#[trigger] pending[j]).observer_position,
                g,
            ) == c && pending[j].node == n && completions[j] is Some),
    ensures
        samples_upto(pending, completions, g, c, n, k) == if k <= i {
            Seq::<bool>::empty()
        } else {
            seq![completions[i]->Some_0]
        },
    decreases k,
{
    if k > 0 {
        lemma_samples_single(pending, completions, g, c, n, i, k - 1);
        if k - 1 != i {
            assert(!(grid_cell(pending[k - 1].observer_position, g) == c && pending[k - 1].node
                == n && completions[k - 1] is Some));
        } else {
            assert(Seq::<bool>::empty().push(completions[i]->Some_0) =~= seq![
                completions[i]->Some_0,
            ]);
        }
    }
}

/// The visibility state machine under one resolved query: when exactly one
/// completed query aims at a cell and object, the cache's update resolves
/// that state by `resolve_visibility` — so a `Visible` entry survives any
/// result, and an `Invisible` entry is upgraded exactly by a positive
/// sample. Together with the update contract this pins the cell's final
/// state whenever the cell itself survives the distance-based eviction.
pub proof fn lemma_update_single_query(
    pending: Seq<PendingQuery>,
    completions: Seq<Option<bool>>,
    g: Granularity,
    c: Vector3I,
    n: NodeHandle,
    i: int,
    v: Visibility,
)
    requires
        completions.len() == pending.len(),
        0 <= i < pending.len(),
        grid_cell(pending[i].observer_position, g) == c,
        pending[i].node == n,
        completions[i] is Some,
        forall|j: int|
            0 <= j < pending.len() && j != i ==> !(grid_cell(
                (#[trigger] pending[j]).observer_position,
                g,
            ) == c && pending[j].node == n && completions[j] is Some),
    ensures
        fold_resolve(v, samples_upto(pending, completions, g, c, n, pending.len() as int))
            == resolve_visibility(v, completions[i]->Some_0),
        v is Visible ==> fold_resolve(
            v,
            samples_upto(pending, completions, g, c, n, pending.len() as int),
        ) is Visible,
        v is Invisible && completions[i]->Some_0 ==> fold_resolve(
            v,
            samples_upto(pending, completions, g, c, n, pending.len() as int),
        ) is Visible,
        v is Invisible && !(completions[i]->Some_0) ==> fold_resolve(
            v,
            samples_upto(pending, completions, g, c, n, pending.len() as int),
        ) is Invisible,
{
    lemma_samples_single(pending, completions, g, c, n, i, pending.len() as int);
    let samples = samples_upto(pending, completions, g, c, n, pending.len() as int);
    let sample = completions[i]->Some_0;
    assert(samples.len() == 1);
    assert(samples.drop_last() =~= Seq::<bool>::empty());
    assert(samples.last() == sample);
    assert(fold_resolve(v, Seq::<bool>::empty()) == v);
    assert(fold_resolve(v, samples) == resolve_visibility(
        fold_resolve(v, samples.drop_last()),
        samples.last(),
    ));
    assert(fold_resolve(v, samples) == resolve_visibility(v, sample));
    lemma_visibility_monotonic(v, sample);
}

/// The pending queries that remain after processing completions: those
/// whose completion has not arrived, in their original order.
pub open spec fn retained_queries(
    pending: Seq<PendingQuery>,
    completions: Seq<Option<bool>>,
    i: int,
) -> Seq<PendingQuery>
    decreases i,
{
    if i <= 0 {
        Seq::empty()
    } else {
        let head = retained_queries(pending, completions, i - 1);
        if completions[i - 1] is None {
            head.push(pending[i - 1])
        } else {
            head
        }
    }
}

/// An in-flight occlusion query: the GPU-side query is owned by the
/// caller and named here by an identifier.
#[derive(Clone, Copy, PartialEq, Eq, Structural, Hash, Debug)]
pub struct PendingQuery {
    /// The caller's name for the GPU query object.
    pub query: u64,
    /// Where the observer stood when the query was issued.
    pub observer_position: MilliPos,
    /// The object the query measures.
    pub node: NodeHandle,
}

/// A per-observer volumetric visibility cache based on occlusion queries.
pub struct ObserverVisibilityCache {
    cells: GridMap<Vector3I, GridMap<NodeHandle, Visibility>>,
    pending_queries: Vec<PendingQuery>,
    granularity: Granularity,
    distance_discard_threshold: i64,
}

impl ObserverVisibilityCache {
    #[verifier::type_invariant]
    closed spec fn inv(&self) -> bool {
        &&& granularity_ok(self.granularity)
        &&& 0 <= self.distance_discard_threshold <= MILLI_LIMIT
        &&& forall|i: int|
            0 <= i < self.pending_queries@.len() ==> milli_ok(
                (#[trigger] self.pending_queries@[i]).observer_position,
            )
        &&& forall|c: Vector3I| #[trigger] self.cells@.contains_key(c) ==> cell_ok(c)
    }

    /// The visibility stored for each object, by spatial cell.
    pub closed spec fn cells_view(&self) -> Map<Vector3I, GridMap<NodeHandle, Visibility>> {
        self.cells@
    }

    /// The in-flight queries, oldest first.
    pub closed spec fn pending_view(&self) -> Seq<PendingQuery> {
        self.pending_queries@
    }

    /// The cache's subdivision of the world.
    pub closed spec fn granularity_spec(&self) -> Granularity {
        self.granularity
    }

    /// How far away (in milli-units) a cell center may be before the cell
    /// is discarded.
    pub closed spec fn threshold_spec(&self) -> i64 {
        self.distance_discard_threshold
    }

    /// The visibility stored for a given cell and object, if any.
    pub open spec fn cell_visibility(&self, cell: Vector3I, node: NodeHandle) -> Option<
        Visibility,
    > {
        if self.cells_view().contains_key(cell) && self.cells_view()[cell]@.contains_key(node) {
            Some(self.cells_view()[cell]@[node])
        } else {
            None
        }
    }

    /// Creates a new visibility cache with the given granularity and
    /// distance discard threshold (in milli-units). The granularity means
    /// how much the cache subdivides the world: 2 means that a 1 world
    /// unit cell is split into 8 blocks of half a unit. The distance
    /// discard threshold means how far an observer can go without
    /// discarding visibility info about distant objects.
    pub fn new(granularity: Granularity, distance_discard_threshold: i64) -> (r: Self)
        requires
            granularity_ok(granularity),
            0 <= distance_discard_threshold <= MILLI_LIMIT,
        ensures
            r.cells_view() == Map::<Vector3I, GridMap<NodeHandle, Visibility>>::empty(),
            r.pending_view() == Seq::<PendingQuery>::empty(),
            r.granularity_spec() == granularity,
            r.threshold_spec() == distance_discard_threshold,
    {
        ObserverVisibilityCache {
            cells: GridMap::new(),
            pending_queries: Vec::new(),
            granularity,
            distance_discard_threshold,
        }
    }

    /// Transforms the given milli-unit position into its grid cell.
    pub fn world_to_grid(&self, position: MilliPos) -> (r: Vector3I)
        requires
            milli_ok(position),
        ensures
            r == grid_cell(position, self.granularity_spec()),
            cell_ok(r),
    {
        proof {
            use_type_invariant(self);
        }
        let g = self.granularity;
        let gx = g.x as i64;
        let gy = g.y as i64;
        let gz = g.z as i64;
        proof {
            assert(-0x4_0000_0000 <= position.x * gx <= 0x4_0000_0000) by (nonlinear_arith)
                requires
                    -0x100_0000 <= position.x <= 0x100_0000,
                    0 <= gx <= 1024,
            ;
            assert(-0x4_0000_0000 <= position.y * gy <= 0x4_0000_0000) by (nonlinear_arith)
                requires
                    -0x100_0000 <= position.y <= 0x100_0000,
                    0 <= gy <= 1024,
            ;
            assert(-0x4_0000_0000 <= position.z * gz <= 0x4_0000_0000) by (nonlinear_arith)
                requires
                    -0x100_0000 <= position.z <= 0x100_0000,
                    0 <= gz <= 1024,
            ;
        }
        let cx = round_div_exec(position.x * gx, MILLI);
        let cy = round_div_exec(position.y * gy, MILLI);
        let cz = round_div_exec(position.z * gz, MILLI);
        Vector3I { x: cx as i32, y: cy as i32, z: cz as i32 }
    }

    /// Tries to find visibility info about the object for the given
    /// observer position.
    pub fn visibility_info(&self, observer_position: MilliPos, node: NodeHandle) -> (r: Option<
        Visibility,
    >)
        requires
            milli_ok(observer_position),
        ensures
            r == self.cell_visibility(
                grid_cell(observer_position, self.granularity_spec()),
                node,
            ),
    {
        let grid_position = self.world_to_grid(observer_position);
        match self.cells.get(&grid_position) {
            Some(cell) => match cell.get(&node) {
                Some(v) => Some(*v),
                None => None,
            },
            None => None,
        }
    }

    /// Checks whether the given object needs an occlusion query for the
    /// given observer position: yes when nothing is known about it yet,
    /// and when a potentially stale negative result should be re-probed.
    pub fn needs_occlusion_query(&self, observer_position: MilliPos, node: NodeHandle) -> (r:
        bool)
        requires
            milli_ok(observer_position),
        ensures
            r == (match self.cell_visibility(
                grid_cell(observer_position, self.granularity_spec()),
                node,
            ) {
                None => true,
                Some(v) => v is Invisible,
            }),
    {
        match self.visibility_info(observer_position, node) {
            None => {
                // There's no data about the visibility, so the occlusion query
                // is needed.
                true
            },
            Some(visibility) => visibility.needs_occlusion_query(),
        }
    }

    /// Checks whether the object at the given handle is visible from the
    /// given observer position. This method returns `true` for
    /// non-completed occlusion queries, because occlusion queries are
    /// asynchronous.
    pub fn is_visible(&self, observer_position: MilliPos, node: NodeHandle) -> (r: bool)
        requires
            milli_ok(observer_position),
        ensures
            r == (match self.cell_visibility(
                grid_cell(observer_position, self.granularity_spec()),
                node,
            ) {
                None => false,
                Some(v) => !(v is Invisible),
            }),
    {
        match self.visibility_info(observer_position, node) {
            None => false,
            Some(visibility) => visibility.needs_rendering(),
        }
    }

    /// Record the start of a visibility query for the object at the given
    /// handle from the given observer position. When the observer is
    /// inside the object's bounding box — the caller passes that test in —
    /// the object is immediately marked `Visible` and no query is needed;
    /// otherwise the caller must have begun the GPU query named `query`,
    /// and the object is marked `Undefined` while the query is in flight.
    /// Returns whether a query was started. A cell entry is only created,
    /// never overwritten.
    pub fn begin_conditional_query(
        &mut self,
        query: u64,
        observer_position: MilliPos,
        observer_inside_bounds: bool,
        node: NodeHandle,
    ) -> (started: bool)
        requires
            milli_ok(observer_position),
        ensures
            started == !observer_inside_bounds,
            ({
                let cell = grid_cell(observer_position, old(self).granularity_spec());
                let mark = if observer_inside_bounds {
                    Visibility::Visible
                } else {
                    Visibility::Undefined
                };
                &&& final(self).granularity_spec() == old(self).granularity_spec()
                &&& final(self).threshold_spec() == old(self).threshold_spec()
                &&& final(self).cell_visibility(cell, node) == Some(
                    match old(self).cell_visibility(cell, node) {
                        Some(v) => v,
                        None => mark,
                    },
                )
                &&& forall|c: Vector3I, n: NodeHandle|
                    !(c == cell && n == node) ==> #[trigger] final(self).cell_visibility(c, n)
                        == old(self).cell_visibility(c, n)
                &&& final(self).pending_view() == if observer_inside_bounds {
                    old(self).pending_view()
                } else {
                    old(self).pending_view().push(
                        PendingQuery { query, observer_position, node },
                    )
                }
            }),
    {
        proof {
            use_type_invariant(&*self);
        }
        let grid_position = self.world_to_grid(observer_position);
        let mark = if observer_inside_bounds {
            Visibility::Visible
        } else {
            Visibility::Undefined
        };
        let mut cells = GridMap::new();
        core::mem::swap(&mut cells, &mut self.cells);
        let ghost cells0 = cells@;
        let had = cells.contains_key(&grid_position);
        if !had {
            cells.insert(grid_position, GridMap::new());
        }
        let mut cell = cells.remove(&grid_position).unwrap();
        let ghost cellmap0 = cell@;
        if !cell.contains_key(&node) {
            cell.insert(node, mark);
        }
        cells.insert(grid_position, cell);
        self.cells = cells;
        if !observer_inside_bounds {
            let mut pending = Vec::new();
            core::mem::swap(&mut pending, &mut self.pending_queries);
            pending.push(PendingQuery { query, observer_position, node });
            self.pending_queries = pending;
        }
        proof {
            assert forall|c: Vector3I, n: NodeHandle|
                !(c == grid_position && n == node) implies #[trigger] self.cell_visibility(c, n)
                == (if cells0.contains_key(c) && cells0[c]@.contains_key(n) {
                Some(cells0[c]@[n])
            } else {
                None::<Visibility>
            }) by {
                if c == grid_position {
                    if !had {
                        assert(self.cells@[c]@ == cellmap0.insert(node, mark) || self.cells@[c]@
                            == cellmap0);
                    }
                }
            }
        }
        !observer_inside_bounds
    }

    /// Record the start of an unconditional visibility query for the
    /// object at the given handle from the given observer position: the
    /// caller must have begun the GPU query named `query`.
    pub fn begin_non_conditional_query(
        &mut self,
        query: u64,
        observer_position: MilliPos,
        node: NodeHandle,
    )
        requires
            milli_ok(observer_position),
        ensures
            ({
                let cell = grid_cell(observer_position, old(self).granularity_spec());
                &&& final(self).granularity_spec() == old(self).granularity_spec()
                &&& final(self).threshold_spec() == old(self).threshold_spec()
                &&& final(self).cell_visibility(cell, node) == Some(
                    match old(self).cell_visibility(cell, node) {
                        Some(v) => v,
                        None => Visibility::Undefined,
                    },
                )
                &&& forall|c: Vector3I, n: NodeHandle|
                    !(c == cell && n == node) ==> #[trigger] final(self).cell_visibility(c, n)
                        == old(self).cell_visibility(c, n)
                &&& final(self).pending_view() == old(self).pending_view().push(
                    PendingQuery { query, observer_position, node },
                )
            }),
    {
        proof {
            use_type_invariant(&*self);
        }
        let grid_position = self.world_to_grid(observer_position);
        let mut cells = GridMap::new();
        core::mem::swap(&mut cells, &mut self.cells);
        let ghost cells0 = cells@;
        let had = cells.contains_key(&grid_position);
        if !had {
            cells.insert(grid_position, GridMap::new());
        }
        let mut cell = cells.remove(&grid_position).unwrap();
        let ghost cellmap0 = cell@;
        if !cell.contains_key(&node) {
            cell.insert(node, Visibility::Undefined);
        }
        cells.insert(grid_position, cell);
        self.cells = cells;
        let mut pending = Vec::new();
        core::mem::swap(&mut pending, &mut self.pending_queries);
        pending.push(PendingQuery { query, observer_position, node });
        self.pending_queries = pending;
        proof {
            assert forall|c: Vector3I, n: NodeHandle|
                !(c == grid_position && n == node) implies #[trigger] self.cell_visibility(c, n)
                == (if cells0.contains_key(c) && cells0[c]@.contains_key(n) {
                Some(cells0[c]@[n])
            } else {
                None::<Visibility>
            }) by {
                if c == grid_position {
                    if !had {
                        assert(self.cells@[c]@ == cellmap0.insert(node, Visibility::Undefined)
                            || self.cells@[c]@ == cellmap0);
                    }
                }
            }
        }
    }

    /// The most recently begun pending query, whose GPU-side query the
    /// caller must end now; calling this with no query in flight is a
    /// begin/end mismatch and is not allowed.
    pub fn end_query(&self) -> (r: PendingQuery)
        requires
            self.pending_view().len() > 0,
        ensures
            r == self.pending_view().last(),
    {
        proof {
            use_type_invariant(self);
        }
        self.pending_queries[self.pending_queries.len() - 1]
    }

    /// The number of queries in flight.
    pub fn pending_len(&self) -> (n: usize)
        ensures
            n == self.pending_view().len(),
    {
        self.pending_queries.len()
    }

    /// The pending query at the given index, oldest first.
    pub fn pending_at(&self, i: usize) -> (r: PendingQuery)
        requires
            i < self.pending_view().len(),
        ensures
            r == self.pending_view()[i as int],
    {
        self.pending_queries[i]
    }

    /// Whether the center of the cell lies strictly within the discard
    /// threshold of the given position.
    fn cell_within_threshold(&self, c: Vector3I, p: MilliPos) -> (r: bool)
        requires
            milli_ok(p),
            cell_ok(c),
        ensures
            r == within_threshold(c, p, self.granularity_spec(), self.threshold_spec()),
    {
        proof {
            use_type_invariant(self);
        }
        let gx = self.granularity.x as i128;
        let gy = self.granularity.y as i128;
        let gz = self.granularity.z as i128;
        proof {
            assert((p.x as i128) * gx <= 0x4_0000_0000 && (p.x as i128) * gx >= -0x4_0000_0000)
                by (nonlinear_arith)
                requires
                    -0x100_0000 <= p.x <= 0x100_0000,
                    0 <= gx <= 1024,
            ;
            assert((p.y as i128) * gy <= 0x4_0000_0000 && (p.y as i128) * gy >= -0x4_0000_0000)
                by (nonlinear_arith)
                requires
                    -0x100_0000 <= p.y <= 0x100_0000,
                    0 <= gy <= 1024,
            ;
            assert((p.z as i128) * gz <= 0x4_0000_0000 && (p.z as i128) * gz >= -0x4_0000_0000)
                by (nonlinear_arith)
                requires
                    -0x100_0000 <= p.z <= 0x100_0000,
                    0 <= gz <= 1024,
            ;
            assert(gy * gz <= 0x10_0000 && gx * gz <= 0x10_0000 && gx * gy <= 0x10_0000 && gy * gz
                >= 0 && gx * gz >= 0 && gx * gy >= 0) by (nonlinear_arith)
                requires
                    0 <= gx <= 1024,
                    0 <= gy <= 1024,
                    0 <= gz <= 1024,
            ;
        }
        let ax: i128 = c.x as i128 * (MILLI as i128) - (p.x as i128) * gx;
        let ay: i128 = c.y as i128 * (MILLI as i128) - (p.y as i128) * gy;
        let az: i128 = c.z as i128 * (MILLI as i128) - (p.z as i128) * gz;
        proof {
            assert(ax * (gy * gz) <= 0x100_0000_0000_0000 && ax * (gy * gz)
                >= -0x100_0000_0000_0000) by (nonlinear_arith)
                requires
                    -0x10_0000_0000 <= ax <= 0x10_0000_0000,
                    0 <= gy * gz <= 0x10_0000,
            ;
            assert(ay * (gx * gz) <= 0x100_0000_0000_0000 && ay * (gx * gz)
                >= -0x100_0000_0000_0000) by (nonlinear_arith)
                requires
                    -0x10_0000_0000 <= ay <= 0x10_0000_0000,
                    0 <= gx * gz <= 0x10_0000,
            ;
            assert(az * (gx * gy) <= 0x100_0000_0000_0000 && az * (gx * gy)
                >= -0x100_0000_0000_0000) by (nonlinear_arith)
                requires
                    -0x10_0000_0000 <= az <= 0x10_0000_0000,
                    0 <= gx * gy <= 0x10_0000,
            ;
        }
        let dx: i128 = ax * (gy * gz);
        let dy: i128 = ay * (gx * gz);
        let dz: i128 = az * (gx * gy);
        proof {
            assert(0 <= dx * dx <= 0x1_0000_0000_0000_0000_0000_0000_0000)
                by (nonlinear_arith)
                requires
                    -0x100_0000_0000_0000 <= dx <= 0x100_0000_0000_0000,
            ;
            assert(0 <= dy * dy <= 0x1_0000_0000_0000_0000_0000_0000_0000)
                by (nonlinear_arith)
                requires
                    -0x100_0000_0000_0000 <= dy <= 0x100_0000_0000_0000,
            ;
            assert(0 <= dz * dz <= 0x1_0000_0000_0000_0000_0000_0000_0000)
                by (nonlinear_arith)
                requires
                    -0x100_0000_0000_0000 <= dz <= 0x100_0000_0000_0000,
            ;
        }
        let sx: i128 = dx * dx;
        let sy: i128 = dy * dy;
        let sz: i128 = dz * dz;
        let tbase: i128 = self.distance_discard_threshold as i128;
        proof {
            assert(0 <= tbase * gx <= 0x4_0000_0000 && 0 <= tbase * gx * gy <= 0x1000_0000_0000
                && 0 <= tbase * gx * gy * gz <= 0x400_0000_0000_0000) by (nonlinear_arith)
                requires
                    0 <= tbase <= 0x100_0000,
                    0 <= gx <= 1024,
                    0 <= gy <= 1024,
                    0 <= gz <= 1024,
            ;
        }
        let tt: i128 = tbase * gx * gy * gz;
        proof {
            assert(0 <= tt * tt <= 0x10_0000_0000_0000_0000_0000_0000_0000)
                by (nonlinear_arith)
                requires
                    0 <= tt <= 0x400_0000_0000_0000,
            ;
        }
        let tsq: i128 = tt * tt;
        sx + sy + sz < tsq
    }

    /// This method resolves the completed pending visibility queries and
    /// removes info about too distant cells. The caller polls each pending
    /// query (in issuance order, as listed by [`Self::pending_at`]) without
    /// blocking and passes one entry per query: the query's boolean result
    /// when it has completed, and `None` when it is still in flight.
    /// Completed queries upgrade the cached visibility monotonically and
    /// leave the pending list; unfinished ones are retained. Afterwards,
    /// no cell whose center is farther than the discard threshold from
    /// `observer_position` remains in the cache.
    pub fn update(&mut self, observer_position: MilliPos, completions: &Vec<Option<bool>>)
        requires
            milli_ok(observer_position),
            completions@.len() == old(self).pending_view().len(),
            forall|i: int|
                0 <= i < completions@.len() && (#[trigger] completions@[i]) is Some ==> old(
                    self,
                ).cell_visibility(
                    grid_cell(
                        old(self).pending_view()[i].observer_position,
                        old(self).granularity_spec(),
                    ),
                    old(self).pending_view()[i].node,
                ) is Some,
        ensures
            final(self).granularity_spec() == old(self).granularity_spec(),
            final(self).threshold_spec() == old(self).threshold_spec(),
            final(self).pending_view() == retained_queries(
                old(self).pending_view(),
                completions@,
                old(self).pending_view().len() as int,
            ),
            forall|c: Vector3I|
                #[trigger] final(self).cells_view().contains_key(c) <==> (
                old(self).cells_view().contains_key(c) && within_threshold(
                    c,
                    observer_position,
                    old(self).granularity_spec(),
                    old(self).threshold_spec(),
                )),
            forall|c: Vector3I, n: NodeHandle|
                final(self).cells_view().contains_key(c) ==> #[trigger] final(self).cell_visibility(
                    c,
                    n,
                ) == (match old(self).cell_visibility(c, n) {
                    Some(v) => Some(
                        fold_resolve(
                            v,
                            samples_upto(
                                old(self).pending_view(),
                                completions@,
                                old(self).granularity_spec(),
                                c,
                                n,
                                old(self).pending_view().len() as int,
                            ),
                        ),
                    ),
                    None => None::<Visibility>,
                }),
    {
        proof {
            use_type_invariant(&*self);
        }
        let ghost g = self.granularity;
        let ghost pend0 = self.pending_queries@;
        let ghost cv0 = *self;
        let mut pending = Vec::new();
        core::mem::swap(&mut pending, &mut self.pending_queries);
        let mut retained: Vec<PendingQuery> = Vec::new();
        let n = pending.len();
        let mut i: usize = 0;
        while i < n
            invariant
                i <= n,
                n == pend0.len(),
                pending@ == pend0,
                completions@.len() == n,
                g == self.granularity,
                granularity_ok(g),
                self.granularity == cv0.granularity_spec(),
                self.distance_discard_threshold == cv0.threshold_spec(),
                0 <= self.distance_discard_threshold <= MILLI_LIMIT,
                self.pending_queries@.len() == 0,
                forall|j: int| 0 <= j < n ==> milli_ok((#[trigger] pend0[j]).observer_position),
                forall|c: Vector3I| #[trigger] self.cells@.contains_key(c) ==> cell_ok(c),
                forall|j: int|
                    0 <= j < n && (#[trigger] completions@[j]) is Some ==> cv0.cell_visibility(
                        grid_cell(pend0[j].observer_position, g),
                        pend0[j].node,
                    ) is Some,
                retained@ == retained_queries(pend0, completions@, i as int),
                forall|k: int|
                    0 <= k < retained@.len() ==> milli_ok(
                        (#[trigger] retained@[k]).observer_position,
                    ),
                forall|c: Vector3I|
                    #[trigger] self.cells@.contains_key(c) == cv0.cells_view().contains_key(c),
                forall|c: Vector3I, n2: NodeHandle|
                    self.cells@.contains_key(c) ==> (if #[trigger] self.cells@[c]@.contains_key(
                        n2,
                    ) {
                        Some(self.cells@[c]@[n2])
                    } else {
                        None::<Visibility>
                    }) == (match cv0.cell_visibility(c, n2) {
                        Some(v) => Some(
                            fold_resolve(v, samples_upto(pend0, completions@, g, c, n2, i as int)),
                        ),
                        None => None::<Visibility>,
                    }),
            decreases n - i,
        {
            let pq = pending[i];
            let completed = completions[i];
            match completed {
                Some(sample) => {
                    let cell_index = self.world_to_grid(pq.observer_position);
                    let ghost cells_before = self.cells@;
                    let mut cells = GridMap::new();
                    core::mem::swap(&mut cells, &mut self.cells);
                    let mut cell = cells.remove(&cell_index).unwrap();
                    let old_vis = *cell.get(&pq.node).unwrap();
                    let new_vis = match old_vis {
                        Visibility::Undefined => if sample {
                            Visibility::Visible
                        } else {
                            Visibility::Invisible
                        },
                        Visibility::Invisible => if sample {
                            Visibility::Visible
                        } else {
                            Visibility::Invisible
                        },
                        Visibility::Visible => Visibility::Visible,
                    };
                    cell.insert(pq.node, new_vis);
                    cells.insert(cell_index, cell);
                    self.cells = cells;
                    proof {
                        assert(new_vis == resolve_visibility(old_vis, sample));
                        assert(self.cells@.contains_key(cell_index));
                        assert(self.cells@[cell_index]@ == cells_before[cell_index]@.insert(
                            pq.node,
                            new_vis,
                        ));
                        assert forall|c: Vector3I| c != cell_index implies #[trigger] self.cells@.contains_key(
                            c,
                        ) == cells_before.contains_key(c) && (self.cells@.contains_key(c)
                            ==> self.cells@[c] == cells_before[c]) by {}
                        assert forall|c: Vector3I, n2: NodeHandle|
                            self.cells@.contains_key(c) implies (if #[trigger] self.cells@[c]@.contains_key(
                            n2,
                        ) {
                            Some(self.cells@[c]@[n2])
                        } else {
                            None::<Visibility>
                        }) == (match cv0.cell_visibility(c, n2) {
                            Some(v) => Some(
                                fold_resolve(
                                    v,
                                    samples_upto(pend0, completions@, g, c, n2, i + 1),
                                ),
                            ),
                            None => None::<Visibility>,
                        }) by {
                            if c == cell_index && n2 == pq.node {
                                let su = samples_upto(pend0, completions@, g, c, n2, i as int);
                                assert(samples_upto(pend0, completions@, g, c, n2, i + 1)
                                    == su.push(sample));
                                assert(su.push(sample).drop_last() =~= su);
                                assert(su.push(sample).last() == sample);
                                assert(su.push(sample).len() == su.len() + 1);
                            } else {
                                assert(samples_upto(pend0, completions@, g, c, n2, i + 1)
                                    == samples_upto(pend0, completions@, g, c, n2, i as int));
                                assert(cells_before.contains_key(c) == self.cells@.contains_key(
                                    c,
                                ));
                                if self.cells@.contains_key(c) {
                                    if c == cell_index {
                                        assert(self.cells@[c]@[n2] == cells_before[c]@[n2]
                                            || !cells_before[c]@.contains_key(n2));
                                        assert(self.cells@[c]@.contains_key(n2)
                                            == cells_before[c]@.contains_key(n2));
                                    } else {
                                        assert(self.cells@[c] == cells_before[c]);
                                    }
                                }
                            }
                        }
                    }
                },
                None => {
                    retained.push(pq);
                    proof {
                        assert(retained@ == retained_queries(pend0, completions@, i + 1));
                    }
                },
            }
            i = i + 1;
        }
        self.pending_queries = retained;
        // remove visibility info from the cache for distant cells
        let ghost resolved_cells = self.cells@;
        let mut cells = GridMap::new();
        core::mem::swap(&mut cells, &mut self.cells);
        let m = cells.len();
        let mut drop_keys: Vec<Vector3I> = Vec::new();
        let mut j: usize = 0;
        while j < m
            invariant
                j <= m,
                m == cells.entries_view().len(),
                cells@ == resolved_cells,
                milli_ok(observer_position),
                granularity_ok(self.granularity),
                0 <= self.distance_discard_threshold <= MILLI_LIMIT,
                self.granularity == cv0.granularity_spec(),
                self.distance_discard_threshold == cv0.threshold_spec(),
                forall|c: Vector3I| #[trigger] cells@.contains_key(c) ==> cell_ok(c),
                forall|k: int|
                    0 <= k < drop_keys@.len() ==> !within_threshold(
                        #[trigger] drop_keys@[k],
                        observer_position,
                        cv0.granularity_spec(),
                        cv0.threshold_spec(),
                    ),
                forall|k: int|
                    0 <= k < j ==> within_threshold(
                        (#[trigger] cells.entries_view()[k]).0,
                        observer_position,
                        cv0.granularity_spec(),
                        cv0.threshold_spec(),
                    ) || drop_keys@.contains(cells.entries_view()[k].0),
            decreases m - j,
        {
            let e = cells.entry_at(j);
            let key = e.0;
            let ghost dk0 = drop_keys@;
            let keep = self.cell_within_threshold(key, observer_position);
            if !keep {
                drop_keys.push(key);
                proof {
                    assert(drop_keys@[drop_keys@.len() - 1] == key);
                    assert(drop_keys@.contains(key));
                }
            }
            proof {
                assert forall|k: int|
                    0 <= k < j + 1 implies within_threshold(
                    (#[trigger] cells.entries_view()[k]).0,
                    observer_position,
                    cv0.granularity_spec(),
                    cv0.threshold_spec(),
                ) || drop_keys@.contains(cells.entries_view()[k].0) by {
                    if k < j {
                        if !within_threshold(
                            cells.entries_view()[k].0,
                            observer_position,
                            cv0.granularity_spec(),
                            cv0.threshold_spec(),
                        ) {
                            let l = choose|l: int|
                                0 <= l < dk0.len() && dk0[l] == cells.entries_view()[k].0;
                            assert(drop_keys@[l] == cells.entries_view()[k].0);
                        }
                    }
                }
            }
            j = j + 1;
        }
        cells.observe();
        let ghost entries2 = cells.entries_view();
        let dn = drop_keys.len();
        let mut k: usize = 0;
        while k < dn
            invariant
                k <= dn,
                dn == drop_keys@.len(),
                milli_ok(observer_position),
                self.granularity == cv0.granularity_spec(),
                self.distance_discard_threshold == cv0.threshold_spec(),
                granularity_ok(self.granularity),
                0 <= self.distance_discard_threshold <= MILLI_LIMIT,
                forall|l: int|
                    0 <= l < dn ==> !within_threshold(
                        #[trigger] drop_keys@[l],
                        observer_position,
                        cv0.granularity_spec(),
                        cv0.threshold_spec(),
                    ),
                forall|c: Vector3I|
                    #[trigger] cells@.contains_key(c) == (resolved_cells.contains_key(c) && !(
                    exists|l: int| 0 <= l < k && #[trigger] drop_keys@[l] == c)),
                forall|c: Vector3I|
                    #[trigger] cells@.contains_key(c) ==> cells@[c] == resolved_cells[c],
            decreases dn - k,
        {
            let key = drop_keys[k];
            cells.remove(&key);
            proof {
                assert forall|c: Vector3I|
                    #[trigger] cells@.contains_key(c) == (resolved_cells.contains_key(c) && !(
                    exists|l: int| 0 <= l < k + 1 && #[trigger] drop_keys@[l] == c)) by {
                    if c == key {
                        assert(drop_keys@[k as int] == c);
                    }
                }
            }
            k = k + 1;
        }
        self.cells = cells;
        proof {
            assert forall|c: Vector3I| #[trigger] self.cells@.contains_key(c) <==> (
            cv0.cells_view().contains_key(c) && within_threshold(
                c,
                observer_position,
                cv0.granularity_spec(),
                cv0.threshold_spec(),
            )) by {
                if resolved_cells.contains_key(c) {
                    if within_threshold(
                        c,
                        observer_position,
                        cv0.granularity_spec(),
                        cv0.threshold_spec(),
                    ) {
                        if exists|l: int| 0 <= l < dn && #[trigger] drop_keys@[l] == c {
                            let l = choose|l: int| 0 <= l < dn && #[trigger] drop_keys@[l] == c;
                        }
                    } else {
                        // every surviving entry key was checked and kept
                        if self.cells@.contains_key(c) {
                            let idx = choose|idx: int|
                                0 <= idx < entries2.len() && (#[trigger] entries2[idx]).0 == c;
                            assert(drop_keys@.contains(c));
                            let l = choose|l: int| 0 <= l < dn && #[trigger] drop_keys@[l] == c;
                        }
                    }
                }
            }
        }
    }
}

/// What the registry stores per observer: its last known position and its
/// own visibility cache.
pub struct ObserverData {
    /// The observer's last known position, in milli-units.
    pub position: MilliPos,
    /// The observer's visibility cache.
    pub visibility_cache: ObserverVisibilityCache,
}

/// The default granularity of a registered observer's cache: two cells
/// per world unit along each axis.
pub const DEFAULT_GRANULARITY: u32 = 2;

/// The default distance discard threshold of a registered observer's
/// cache, in milli-units: one hundred world units.
pub const DEFAULT_THRESHOLD: i64 = 100_000;

/// A visibility cache that caches visibility info for multiple observers.
pub struct VisibilityCache {
    observers: GridMap<NodeHandle, ObserverData>,
}

impl VisibilityCache {
    /// The registered observers and their data.
    pub closed spec fn observers_view(&self) -> Map<NodeHandle, ObserverData> {
        self.observers@
    }

    /// The registered observers, in their (arbitrary) storage order.
    pub closed spec fn observers_entries(&self) -> Seq<(NodeHandle, ObserverData)> {
        self.observers.entries_view()
    }

    /// An empty registry.
    pub fn new() -> (r: Self)
        ensures
            r.observers_view() == Map::<NodeHandle, ObserverData>::empty(),
    {
        VisibilityCache { observers: GridMap::new() }
    }

    /// The number of registered observers.
    pub fn len(&self) -> (n: usize)
        ensures
            n == self.observers_entries().len(),
    {
        self.observers.len()
    }

    /// The observer registered at a storage index.
    pub fn observer_at(&self, i: usize) -> (r: NodeHandle)
        requires
            i < self.observers_entries().len(),
        ensures
            self.observers_view().contains_key(r),
    {
        self.observers.entry_at(i).0
    }

    /// Whether the given observer has a registered cache.
    pub fn contains_observer(&self, observer: NodeHandle) -> (r: bool)
        ensures
            r == self.observers_view().contains_key(observer),
    {
        self.observers.contains_key(&observer)
    }

    /// Gets or adds new storage for the given observer: a new observer is
    /// registered at the given position with an empty cache using the
    /// default granularity and discard threshold.
    pub fn get_or_register(&mut self, observer: NodeHandle, position: MilliPos)
        requires
            milli_ok(position),
        ensures
            final(self).observers_view().contains_key(observer),
            old(self).observers_view().contains_key(observer) ==> final(self).observers_view()
                == old(self).observers_view(),
            !old(self).observers_view().contains_key(observer) ==> {
                let data = final(self).observers_view()[observer];
                &&& final(self).observers_view() == old(self).observers_view().insert(
                    observer,
                    data,
                )
                &&& data.position == position
                &&& data.visibility_cache.cells_view() == Map::<
                    Vector3I,
                    GridMap<NodeHandle, Visibility>,
                >::empty()
                &&& data.visibility_cache.pending_view() == Seq::<PendingQuery>::empty()
                &&& data.visibility_cache.granularity_spec() == (Granularity {
                    x: DEFAULT_GRANULARITY,
                    y: DEFAULT_GRANULARITY,
                    z: DEFAULT_GRANULARITY,
                })
                &&& data.visibility_cache.threshold_spec() == DEFAULT_THRESHOLD
            },
    {
        if !self.observers.contains_key(&observer) {
            let cache = ObserverVisibilityCache::new(
                Granularity {
                    x: DEFAULT_GRANULARITY,
                    y: DEFAULT_GRANULARITY,
                    z: DEFAULT_GRANULARITY,
                },
                DEFAULT_THRESHOLD,
            );
            let mut observers = GridMap::new();
            core::mem::swap(&mut observers, &mut self.observers);
            observers.insert(observer, ObserverData { position, visibility_cache: cache });
            self.observers = observers;
        } else {
            proof {
                assert(self.observers_view() =~= old(self).observers_view());
            }
        }
    }

    /// Remove and return the data of the given observer, so that the
    /// caller can drive its cache and put it back, or drop it when the
    /// observer no longer exists.
    pub fn take_observer(&mut self, observer: NodeHandle) -> (r: Option<ObserverData>)
        ensures
            final(self).observers_view() == old(self).observers_view().remove(observer),
            match r {
                Some(data) => old(self).observers_view().contains_key(observer) && data == old(
                    self,
                ).observers_view()[observer],
                None => !old(self).observers_view().contains_key(observer),
            },
    {
        let mut observers = GridMap::new();
        core::mem::swap(&mut observers, &mut self.observers);
        let r = observers.remove(&observer);
        self.observers = observers;
        r
    }

    /// Store the data of the given observer, typically after driving its
    /// cache for a frame.
    pub fn put_observer(&mut self, observer: NodeHandle, data: ObserverData)
        ensures
            final(self).observers_view() == old(self).observers_view().insert(observer, data),
    {
        let mut observers = GridMap::new();
        core::mem::swap(&mut observers, &mut self.observers);
        observers.insert(observer, data);
        self.observers = observers;
    }
}

} // verus!
