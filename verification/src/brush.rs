//! A tile map brush: a set of tiles arranged in arbitrary shape, organized
//! in pages, that can be used to draw on a tile map.

use vstd::prelude::*;

use crate::geom::Vector2I;
use crate::grid_map::BoundedGridMap;
use crate::handle::TileDefinitionHandle;
use crate::rect::vec_ok;
use crate::rect::OptionTileRect;
use crate::source::is_bounding_rect_of;
use crate::source::Tiles;
use crate::tile_set::TilePaletteStage;
use crate::tile_set::TileRenderData;
use crate::tile_set::TileSet;
use crate::update::map_at;

verus! {

/// What the pages palette shows for a page with the given icon: a
/// missing-data entry for a page without an icon, the icon tile's render
/// data when the tile set defines it, and nothing otherwise.
pub open spec fn page_palette_entry(
    defs: Map<TileDefinitionHandle, crate::tile_set::TileDefinition>,
    icon: Option<TileDefinitionHandle>,
) -> Option<TileRenderData> {
    match icon {
        None => Some(
            TileRenderData {
                material_bounds: None,
                color: crate::tile_set::Color { r: 255u8, g: 0u8, b: 255u8, a: 255u8 },
            },
        ),
        Some(h) => tile_palette_entry(defs, h),
    }
}

/// What the tiles palette shows for a tile handle: its render data when
/// the tile set defines it, and nothing otherwise.
pub open spec fn tile_palette_entry(
    defs: Map<TileDefinitionHandle, crate::tile_set::TileDefinition>,
    handle: TileDefinitionHandle,
) -> Option<TileRenderData> {
    if defs.contains_key(handle) {
        Some(
            TileRenderData {
                material_bounds: Some(defs[handle].material_bounds),
                color: defs[handle].data.color,
            },
        )
    } else {
        None
    }
}

/// The pages palette listing, in storage order: one entry per page whose
/// palette cell resolves to drawable data, including a missing-data entry
/// per page without an icon.
pub open spec fn pages_palette_spec(
    defs: Map<TileDefinitionHandle, crate::tile_set::TileDefinition>,
    entries: Seq<(Vector2I, TileMapBrushPage)>,
) -> Seq<(Vector2I, TileRenderData)>
    decreases entries.len(),
{
    if entries.len() == 0 {
        Seq::empty()
    } else {
        let head = pages_palette_spec(defs, entries.drop_last());
        match page_palette_entry(defs, entries.last().1.icon) {
            Some(data) => head.push((entries.last().0, data)),
            None => head,
        }
    }
}

/// The tiles palette listing of one page, in storage order: one entry per
/// tile that the tile set defines.
pub open spec fn tiles_palette_spec(
    defs: Map<TileDefinitionHandle, crate::tile_set::TileDefinition>,
    entries: Seq<(Vector2I, TileDefinitionHandle)>,
) -> Seq<(Vector2I, TileRenderData)>
    decreases entries.len(),
{
    if entries.len() == 0 {
        Seq::empty()
    } else {
        let head = tiles_palette_spec(defs, entries.drop_last());
        match tile_palette_entry(defs, entries.last().1) {
            Some(data) => head.push((entries.last().0, data)),
            None => head,
        }
    }
}

/// An error that may occur during tile map brush resource loading.
#[derive(Clone, PartialEq, Eq, Debug)]
pub enum TileMapBrushResourceError {
    /// An input/output error has occurred; the payload describes it.
    Io(String),
    /// An error that may occur due to version incompatibilities; the
    /// payload describes it.
    Visit(String),
}

impl TileMapBrushResourceError {
    /// A description of the error.
    pub fn message(&self) -> (r: &String)
        ensures
            r@ == (match *self {
                TileMapBrushResourceError::Io(ref m) => m@,
                TileMapBrushResourceError::Visit(ref m) => m@,
            }),
    {
        match self {
            TileMapBrushResourceError::Io(m) => m,
            TileMapBrushResourceError::Visit(m) => m,
        }
    }
}

/// A page of tiles within a brush. Having multiple pages allows a brush to
/// be optimized for use in multiple contexts.
pub struct TileMapBrushPage {
    /// The tile that represents this page in the editor.
    pub icon: Option<TileDefinitionHandle>,
    /// The tiles on this page, organized by position.
    pub tiles: Tiles,
}

impl TileMapBrushPage {
    /// The smallest rectangle that contains all the tiles on this page.
    pub fn bounding_rect(&self) -> (r: OptionTileRect)
        ensures
            is_bounding_rect_of(self.tiles@.dom(), r@),
    {
        self.tiles.bounding_rect()
    }

    /// The tile definition handle at the given position.
    pub fn find_tile_at_position(&self, position: Vector2I) -> (r: Option<TileDefinitionHandle>)
        ensures
            r == map_at(self.tiles@, position),
    {
        self.tiles.get_at(position)
    }

    /// Copy the tile definition handles at the given positions into the
    /// given container; positions without a tile are skipped.
    pub fn get_tiles(&self, positions: &Vec<Vector2I>, tiles: &mut Tiles)
        requires
            forall|i: int| 0 <= i < positions@.len() ==> vec_ok(#[trigger] positions@[i]),
        ensures
            forall|p: Vector2I|
                (forall|i: int| 0 <= i < positions@.len() ==> p != #[trigger] positions@[i])
                    ==> map_at(final(tiles)@, p) == map_at(old(tiles)@, p),
            forall|i: int|
                0 <= i < positions@.len() && self.tiles@.contains_key(#[trigger] positions@[i])
                    ==> final(tiles)@.contains_key(positions@[i]) && final(tiles)@[positions@[i]]
                    == self.tiles@[positions@[i]],
    {
        let n = positions.len();
        let mut i: usize = 0;
        while i < n
            invariant
                i <= n,
                n == positions@.len(),
                forall|j: int| 0 <= j < n ==> vec_ok(#[trigger] positions@[j]),
                forall|p: Vector2I|
                    (forall|j: int| 0 <= j < i ==> p != #[trigger] positions@[j]) ==> map_at(
                        tiles@,
                        p,
                    ) == map_at(old(tiles)@, p),
                forall|j: int|
                    0 <= j < i && self.tiles@.contains_key(#[trigger] positions@[j])
                        ==> tiles@.contains_key(positions@[j]) && tiles@[positions@[j]]
                        == self.tiles@[positions@[j]],
            decreases n - i,
        {
            let pos = positions[i];
            let ghost pre = tiles@;
            match self.tiles.get_at(pos) {
                Some(tile) => {
                    tiles.insert(pos, tile);
                },
                None => {},
            }
            proof {
                assert forall|p: Vector2I|
                    (forall|j: int| 0 <= j < i + 1 ==> p != #[trigger] positions@[j]) implies map_at(
                    tiles@,
                    p,
                ) == map_at(old(tiles)@, p) by {
                    assert(p != positions@[i as int]);
                    assert(map_at(pre, p) == map_at(old(tiles)@, p));
                }
            }
            i = i + 1;
        }
    }
}

/// A change counter: a count of changes since the last save. New changes
/// add one; reverting to a previous state subtracts one. Saving is
/// unnecessary whenever the count is zero.
pub type ChangeCount = i64;

/// A tile map brush: a tile set reference and a palette of pages.
pub struct TileMapBrush {
    /// The tile set used by this brush. This must match the tile set of
    /// any tile map that this brush is used to edit.
    pub tile_set: Option<TileSet>,
    /// The set of pages contained in the brush. Each page is associated
    /// with 2D coordinates within a palette of brush pages, so that pages
    /// can be selected much like tiles, and users can organize them.
    pub pages: BoundedGridMap<TileMapBrushPage>,
    /// A count of changes since the last save.
    pub change_count: ChangeCount,
}

impl TileMapBrush {
    /// An empty brush with no tile set.
    pub fn new() -> (r: Self)
        ensures
            r.tile_set is None,
            r.pages@ == Map::<Vector2I, TileMapBrushPage>::empty(),
            r.change_count == 0,
    {
        TileMapBrush { tile_set: None, pages: BoundedGridMap::new(), change_count: 0 }
    }

    /// Whether the given page holds a tile at the given position.
    pub fn has_tile_at(&self, page: Vector2I, tile: Vector2I) -> (r: bool)
        ensures
            r == (self.pages@.contains_key(page) && self.pages@[page].tiles@.contains_key(tile)),
    {
        match self.pages.get(&page) {
            None => false,
            Some(p) => p.tiles.get_at(tile).is_some(),
        }
    }

    /// Returns the bounding rectangle of the brush pages in grid
    /// coordinates.
    pub fn pages_bounds(&self) -> (r: OptionTileRect)
        ensures
            is_bounding_rect_of(self.pages@.dom(), r@),
    {
        self.pages.observe();
        let n = self.pages.len();
        let mut result = OptionTileRect(None);
        let mut i: usize = 0;
        while i < n
            invariant
                i <= n,
                n == self.pages.entries_view().len(),
                forall|j: int|
                    0 <= j < n ==> vec_ok((#[trigger] self.pages.entries_view()[j]).0)
                        && self.pages@.contains_key(self.pages.entries_view()[j].0),
                (result@ is Some) <==> i > 0,
                forall|j: int|
                    0 <= j < i ==> result.contains_spec(
                        (#[trigger] self.pages.entries_view()[j]).0,
                    ),
                result@ is Some ==> {
                    let b = result@->Some_0;
                    &&& (exists|j: int|
                        0 <= j < i && (#[trigger] self.pages.entries_view()[j]).0.x == b.left())
                    &&& (exists|j: int|
                        0 <= j < i && (#[trigger] self.pages.entries_view()[j]).0.x == b.right())
                    &&& (exists|j: int|
                        0 <= j < i && (#[trigger] self.pages.entries_view()[j]).0.y == b.bottom())
                    &&& (exists|j: int|
                        0 <= j < i && (#[trigger] self.pages.entries_view()[j]).0.y == b.top())
                },
            decreases n - i,
        {
            let e = self.pages.entry_at(i);
            result.push(e.0);
            i = i + 1;
        }
        proof {
            let s = self.pages.entries_view();
            if n == 0 {
                assert(self.pages@.dom() =~= Set::<Vector2I>::empty());
            } else {
                assert forall|k: Vector2I| #[trigger] self.pages@.dom().contains(k) implies result@->Some_0.contains_spec(
                    k,
                ) by {
                    let j = choose|j: int| 0 <= j < s.len() && (#[trigger] s[j]).0 == k;
                }
                let b = result@->Some_0;
                let jl = choose|j: int| 0 <= j < n && (#[trigger] s[j]).0.x == b.left();
                assert(self.pages@.dom().contains(s[jl].0) && s[jl].0.x == b.left());
                let jr = choose|j: int| 0 <= j < n && (#[trigger] s[j]).0.x == b.right();
                assert(self.pages@.dom().contains(s[jr].0) && s[jr].0.x == b.right());
                let jb = choose|j: int| 0 <= j < n && (#[trigger] s[j]).0.y == b.bottom();
                assert(self.pages@.dom().contains(s[jb].0) && s[jb].0.y == b.bottom());
                let jt = choose|j: int| 0 <= j < n && (#[trigger] s[j]).0.y == b.top();
                assert(self.pages@.dom().contains(s[jt].0) && s[jt].0.y == b.top());
            }
        }
        result
    }

    /// The icon of the page at the given position, if the page exists and
    /// has one.
    pub fn page_icon(&self, page: Vector2I) -> (r: Option<TileDefinitionHandle>)
        ensures
            r == (if self.pages@.contains_key(page) {
                self.pages@[page].icon
            } else {
                None::<TileDefinitionHandle>
            }),
    {
        match self.pages.get(&page) {
            None => None,
            Some(p) => p.icon,
        }
    }

    /// The bounds of the tiles on the given page, or of the pages
    /// themselves when the pages palette is addressed.
    pub fn tiles_bounds(&self, stage: TilePaletteStage, page: Vector2I) -> (r: OptionTileRect)
        ensures
            match stage {
                TilePaletteStage::Tiles => if self.pages@.contains_key(page) {
                    is_bounding_rect_of(self.pages@[page].tiles@.dom(), r@)
                } else {
                    r@ is None
                },
                TilePaletteStage::Pages => is_bounding_rect_of(self.pages@.dom(), r@),
            },
    {
        match stage {
            TilePaletteStage::Tiles => match self.pages.get(&page) {
                None => OptionTileRect(None),
                Some(p) => p.bounding_rect(),
            },
            TilePaletteStage::Pages => self.pages_bounds(),
        }
    }

    /// The tile definition handle shown at the given position: the tile of
    /// a page, or the icon of the page at the position.
    pub fn find_tile_at_position(
        &self,
        stage: TilePaletteStage,
        page: Vector2I,
        position: Vector2I,
    ) -> (r: Option<TileDefinitionHandle>)
        ensures
            r == (match stage {
                TilePaletteStage::Pages => if self.pages@.contains_key(position) {
                    self.pages@[position].icon
                } else {
                    None::<TileDefinitionHandle>
                },
                TilePaletteStage::Tiles => if self.pages@.contains_key(page) {
                    map_at(self.pages@[page].tiles@, position)
                } else {
                    None::<TileDefinitionHandle>
                },
            }),
    {
        match stage {
            TilePaletteStage::Pages => match self.pages.get(&position) {
                None => None,
                Some(p) => p.icon,
            },
            TilePaletteStage::Tiles => match self.pages.get(&page) {
                None => None,
                Some(p) => p.find_tile_at_position(position),
            },
        }
    }

    /// The tile-set handle that the brush refers to at the given handle:
    /// the tile stored on the addressed page, or the icon of the addressed
    /// page.
    pub open spec fn redirect_spec(
        &self,
        stage: TilePaletteStage,
        handle: TileDefinitionHandle,
    ) -> Option<TileDefinitionHandle> {
        match stage {
            TilePaletteStage::Tiles => if self.pages@.contains_key(handle.page_vector()) {
                map_at(self.pages@[handle.page_vector()].tiles@, handle.tile_vector())
            } else {
                None::<TileDefinitionHandle>
            },
            TilePaletteStage::Pages => if self.pages@.contains_key(handle.tile_vector()) {
                self.pages@[handle.tile_vector()].icon
            } else {
                None::<TileDefinitionHandle>
            },
        }
    }

    /// The tiles of a brush are references to tiles in the tile set. This
    /// method converts a handle within the brush into the handle that
    /// points to the corresponding tile definition within the tile set; if
    /// the brush does not contain a reference at the given handle, `None`
    /// is returned.
    pub fn redirect_handle(&self, stage: TilePaletteStage, handle: TileDefinitionHandle) -> (r:
        Option<TileDefinitionHandle>)
        ensures
            r == self.redirect_spec(stage, handle),
    {
        match stage {
            TilePaletteStage::Tiles => match self.pages.get(&handle.page()) {
                None => None,
                Some(p) => p.tiles.get_at(handle.tile()),
            },
            TilePaletteStage::Pages => match self.pages.get(&handle.tile()) {
                None => None,
                Some(p) => p.icon,
            },
        }
    }

    /// The tile definition handles of the tiles at the given positions on
    /// the given page, or the icons of the pages at the positions.
    pub fn get_tiles(
        &self,
        stage: TilePaletteStage,
        page: Vector2I,
        positions: &Vec<Vector2I>,
        tiles: &mut Tiles,
    )
        requires
            forall|i: int| 0 <= i < positions@.len() ==> vec_ok(#[trigger] positions@[i]),
        ensures
            forall|p: Vector2I|
                (forall|i: int| 0 <= i < positions@.len() ==> p != #[trigger] positions@[i])
                    ==> map_at(final(tiles)@, p) == map_at(old(tiles)@, p),
            stage is Pages ==> forall|i: int|
                0 <= i < positions@.len() && self.pages@.contains_key(#[trigger] positions@[i])
                    && self.pages@[positions@[i]].icon is Some ==> final(tiles)@.contains_key(
                    positions@[i],
                ) && final(tiles)@[positions@[i]] == self.pages@[positions@[i]].icon->Some_0,
            stage is Tiles && self.pages@.contains_key(page) ==> forall|i: int|
                0 <= i < positions@.len() && self.pages@[page].tiles@.contains_key(
                    #[trigger] positions@[i],
                ) ==> final(tiles)@.contains_key(positions@[i]) && final(tiles)@[positions@[i]]
                    == self.pages@[page].tiles@[positions@[i]],
    {
        match stage {
            TilePaletteStage::Pages => {
                let n = positions.len();
                let mut i: usize = 0;
                while i < n
                    invariant
                        i <= n,
                        n == positions@.len(),
                        forall|j: int| 0 <= j < n ==> vec_ok(#[trigger] positions@[j]),
                        forall|p: Vector2I|
                            (forall|j: int| 0 <= j < i ==> p != #[trigger] positions@[j])
                                ==> map_at(tiles@, p) == map_at(old(tiles)@, p),
                        forall|j: int|
                            0 <= j < i && self.pages@.contains_key(#[trigger] positions@[j])
                                && self.pages@[positions@[j]].icon is Some ==> tiles@.contains_key(
                                positions@[j],
                            ) && tiles@[positions@[j]] == self.pages@[positions@[j]].icon->Some_0,
                    decreases n - i,
                {
                    let pos = positions[i];
                    let ghost pre = tiles@;
                    let icon = match self.pages.get(&pos) {
                        None => None,
                        Some(p) => p.icon,
                    };
                    match icon {
                        Some(handle) => {
                            tiles.insert(pos, handle);
                        },
                        None => {},
                    }
                    proof {
                        assert forall|p: Vector2I|
                            (forall|j: int| 0 <= j < i + 1 ==> p != #[trigger] positions@[j]) implies map_at(
                            tiles@,
                            p,
                        ) == map_at(old(tiles)@, p) by {
                            assert(p != positions@[i as int]);
                            assert(map_at(pre, p) == map_at(old(tiles)@, p));
                        }
                    }
                    i = i + 1;
                }
            },
            TilePaletteStage::Tiles => {
                match self.pages.get(&page) {
                    Some(p) => {
                        p.get_tiles(positions, tiles);
                    },
                    None => {},
                }
            },
        }
    }

    /// The material region taken from the tile set for the tile the brush
    /// refers to at the given handle.
    pub fn get_tile_bounds(&self, stage: TilePaletteStage, handle: TileDefinitionHandle) -> (r:
        Option<crate::tile_set::TileMaterialBounds>)
        ensures
            r == (match (self.redirect_spec(stage, handle), &self.tile_set) {
                (Some(red), Some(ts)) => if ts.definitions_view().contains_key(red) {
                    Some(ts.definitions_view()[red].material_bounds)
                } else {
                    None::<crate::tile_set::TileMaterialBounds>
                },
                _ => None::<crate::tile_set::TileMaterialBounds>,
            }),
    {
        let redirected = match self.redirect_handle(stage, handle) {
            Some(h) => h,
            None => {
                return None;
            },
        };
        let tile_set = match &self.tile_set {
            Some(ts) => ts,
            None => {
                return None;
            },
        };
        match tile_set.get_render_data(redirected) {
            Some(data) => data.material_bounds,
            None => None,
        }
    }

    /// The tile data taken from the tile set for the tile the brush refers
    /// to at the given handle.
    pub fn get_tile_data(&self, stage: TilePaletteStage, handle: TileDefinitionHandle) -> (r:
        Option<crate::tile_set::TileData>)
        ensures
            match r {
                Some(data) => self.tile_set is Some && self.redirect_spec(stage, handle) is Some
                    && {
                    let red = self.redirect_spec(stage, handle)->Some_0;
                    let defs = self.tile_set->Some_0.definitions_view();
                    &&& defs.contains_key(red)
                    &&& data.color == defs[red].data.color
                    &&& data.properties@ == defs[red].data.properties@
                    &&& data.collider@ == defs[red].data.collider@
                },
                None => self.tile_set is None || self.redirect_spec(stage, handle) is None || !(
                match (self.redirect_spec(stage, handle), &self.tile_set) {
                    (Some(red), Some(ts)) => ts.definitions_view().contains_key(red),
                    _ => false,
                }),
            },
    {
        let redirected = match self.redirect_handle(stage, handle) {
            Some(h) => h,
            None => {
                return None;
            },
        };
        let tile_set = match &self.tile_set {
            Some(ts) => ts,
            None => {
                return None;
            },
        };
        tile_set.get_tile_data(redirected)
    }

    /// The render data for every tile of the given page (or every page
    /// icon), as the tile set resolves it, listed in storage order: one
    /// entry per palette cell that resolves to drawable data, and one
    /// `missing` entry per page without an icon.
    pub fn palette_render_loop(&self, stage: TilePaletteStage, page: Vector2I) -> (r: Vec<
        (Vector2I, TileRenderData),
    >)
        ensures
            self.tile_set is None ==> r@.len() == 0,
            self.tile_set is Some ==> r@ == (match stage {
                TilePaletteStage::Pages => pages_palette_spec(
                    self.tile_set->Some_0.definitions_view(),
                    self.pages.entries_view(),
                ),
                TilePaletteStage::Tiles => if self.pages@.contains_key(page) {
                    tiles_palette_spec(
                        self.tile_set->Some_0.definitions_view(),
                        self.pages@[page].tiles.entries_view(),
                    )
                } else {
                    Seq::<(Vector2I, TileRenderData)>::empty()
                },
            }),
    {
        let tile_set = match &self.tile_set {
            Some(ts) => ts,
            None => {
                return Vec::new();
            },
        };
        let ghost defs = tile_set.definitions_view();
        let mut result: Vec<(Vector2I, TileRenderData)> = Vec::new();
        match stage {
            TilePaletteStage::Pages => {
                let ghost entries = self.pages.entries_view();
                let n = self.pages.len();
                let mut i: usize = 0;
                while i < n
                    invariant
                        i <= n,
                        n == entries.len(),
                        entries == self.pages.entries_view(),
                        defs == tile_set.definitions_view(),
                        result@ == pages_palette_spec(defs, entries.take(i as int)),
                    decreases n - i,
                {
                    let e = self.pages.entry_at(i);
                    match e.1.icon {
                        None => {
                            result.push((e.0, TileRenderData::missing_data()));
                        },
                        Some(handle) => {
                            match tile_set.get_render_data(handle) {
                                Some(data) => {
                                    result.push((e.0, data));
                                },
                                None => {},
                            }
                        },
                    }
                    proof {
                        assert(entries.take(i + 1).drop_last() =~= entries.take(i as int));
                        assert(entries.take(i + 1).last() == entries[i as int]);
                    }
                    i = i + 1;
                }
                proof {
                    assert(entries.take(n as int) =~= entries);
                }
            },
            TilePaletteStage::Tiles => {
                let p = match self.pages.get(&page) {
                    Some(p) => p,
                    None => {
                        return result;
                    },
                };
                let ghost entries = p.tiles.entries_view();
                let n = p.tiles.len();
                let mut i: usize = 0;
                while i < n
                    invariant
                        i <= n,
                        n == entries.len(),
                        entries == p.tiles.entries_view(),
                        defs == tile_set.definitions_view(),
                        result@ == tiles_palette_spec(defs, entries.take(i as int)),
                    decreases n - i,
                {
                    let e = p.tiles.entry_at(i);
                    match tile_set.get_render_data(e.1) {
                        Some(data) => {
                            result.push((e.0, data));
                        },
                        None => {},
                    }
                    proof {
                        assert(entries.take(i + 1).drop_last() =~= entries.take(i as int));
                        assert(entries.take(i + 1).last() == entries[i as int]);
                    }
                    i = i + 1;
                }
                proof {
                    assert(entries.take(n as int) =~= entries);
                }
            },
        }
        result
    }
}

} // verus!
