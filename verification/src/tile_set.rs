//! A model of the tile-set data that the update engine resolves against:
//! per-tile render data, properties and colliders, page kinds, and the
//! table of transformed tile versions.

use vstd::prelude::*;

use crate::geom::Vector2I;
use crate::grid_map::GridMap;
use crate::handle::TileDefinitionHandle;
use crate::rect::vec_ok;
use crate::source::TileGridMap;
use crate::transform::OrthoTransformation;

verus! {

/// An RGBA color with 8-bit channels.
#[derive(Clone, Copy, PartialEq, Eq, Structural, Hash, Debug)]
pub struct Color {
    /// Red channel.
    pub r: u8,
    /// Green channel.
    pub g: u8,
    /// Blue channel.
    pub b: u8,
    /// Alpha channel.
    pub a: u8,
}

impl Default for Color {
    /// Opaque white.
    fn default() -> (r: Self)
        ensures
            r == (Color { r: 255u8, g: 255u8, b: 255u8, a: 255u8 }),
    {
        Color { r: 255, g: 255, b: 255, a: 255 }
    }
}

/// The identifier of a tile property or collider layer; it stands for the
/// 128-bit unique identifiers that tile sets give their layers.
pub type PropertyId = u128;

/// A value stored under a property layer of a tile.
#[derive(Clone, Copy, PartialEq, Eq, Debug)]
pub enum TileSetPropertyValue {
    /// An integer-valued property.
    Whole(i32),
    /// A color-valued property.
    Shade(Color),
    /// A value for each cell of the tile's 3-by-3 subgrid.
    NineSlice([i8; 9]),
}

/// The collision shape stored under a collider layer of a tile.
#[derive(Clone, Copy, PartialEq, Eq, Structural, Debug)]
pub enum TileCollider {
    /// No collision.
    Empty,
    /// The whole tile collides.
    Rectangle,
    /// A custom mesh, identified by index.
    Mesh(u64),
}

/// The part of a material's texture that a tile shows: an axis-aligned
/// texture region in texels.
#[derive(Clone, Copy, PartialEq, Eq, Structural, Debug)]
pub struct TileBounds {
    /// The corner with the smallest texel coordinates.
    pub left_bottom: Vector2I,
    /// The corner with the largest texel coordinates.
    pub right_top: Vector2I,
}

impl Default for TileBounds {
    /// An empty texture region at the origin.
    fn default() -> (r: Self)
        ensures
            r == (TileBounds {
                left_bottom: Vector2I { x: 0, y: 0 },
                right_top: Vector2I { x: 0, y: 0 },
            }),
    {
        TileBounds {
            left_bottom: Vector2I { x: 0, y: 0 },
            right_top: Vector2I { x: 0, y: 0 },
        }
    }
}

/// A material together with the texture region a tile uses of it; the
/// material itself is named by an identifier.
#[derive(Clone, Copy, PartialEq, Eq, Structural, Debug)]
pub struct TileMaterialBounds {
    /// The identifier of the material.
    pub material: u64,
    /// The texture region.
    pub bounds: TileBounds,
}

impl Default for TileMaterialBounds {
    /// The default material with an empty texture region.
    fn default() -> (r: Self)
        ensures
            r.material == 0,
            r.bounds == (TileBounds {
                left_bottom: Vector2I { x: 0, y: 0 },
                right_top: Vector2I { x: 0, y: 0 },
            }),
    {
        TileMaterialBounds { material: 0, bounds: TileBounds::default() }
    }
}

/// The editable data of one tile: its color and its property and collider
/// layers.
pub struct TileData {
    /// The color the tile is tinted with.
    pub color: Color,
    /// The property values of the tile, by property layer.
    pub properties: GridMap<PropertyId, TileSetPropertyValue>,
    /// The collision shapes of the tile, by collider layer.
    pub collider: GridMap<PropertyId, TileCollider>,
}

impl TileData {
    /// A tile with the default color and no properties or colliders.
    pub fn new() -> (r: Self)
        ensures
            r.color == (Color { r: 255u8, g: 255u8, b: 255u8, a: 255u8 }),
            r.properties@ == Map::<PropertyId, TileSetPropertyValue>::empty(),
            r.collider@ == Map::<PropertyId, TileCollider>::empty(),
    {
        TileData { color: Color::default(), properties: GridMap::new(), collider: GridMap::new() }
    }

    /// A copy of the tile data with the same contents.
    pub fn duplicate(&self) -> (r: Self)
        ensures
            r.color == self.color,
            r.properties@ == self.properties@,
            r.collider@ == self.collider@,
    {
        TileData {
            color: self.color,
            properties: self.properties.duplicate(),
            collider: self.collider.duplicate(),
        }
    }
}

/// The full definition of a freeform tile: where its pixels come from and
/// its editable data.
pub struct TileDefinition {
    /// The material region the tile shows.
    pub material_bounds: TileMaterialBounds,
    /// The editable data of the tile.
    pub data: TileData,
}

impl TileDefinition {
    /// A copy of the definition with the same contents.
    pub fn duplicate(&self) -> (r: Self)
        ensures
            r.material_bounds == self.material_bounds,
            r.data.color == self.data.color,
            r.data.properties@ == self.data.properties@,
            r.data.collider@ == self.data.collider@,
    {
        TileDefinition { material_bounds: self.material_bounds, data: self.data.duplicate() }
    }
}

/// What a renderer needs to draw one tile.
#[derive(Clone, Copy, PartialEq, Eq, Structural, Debug)]
pub struct TileRenderData {
    /// The material region the tile shows, if it has one.
    pub material_bounds: Option<TileMaterialBounds>,
    /// The color the tile is tinted with.
    pub color: Color,
}

impl TileRenderData {
    /// The render data shown for a palette cell whose tile is missing: no
    /// material, tinted magenta.
    pub fn missing_data() -> (r: Self)
        ensures
            r == (TileRenderData {
                material_bounds: None::<TileMaterialBounds>,
                color: Color { r: 255u8, g: 0u8, b: 255u8, a: 255u8 },
            }),
    {
        TileRenderData {
            material_bounds: None,
            color: Color { r: 255, g: 0, b: 255, a: 255 },
        }
    }
}

/// Which palette a position refers to: the palette of pages, or the tiles
/// of one page.
#[derive(Clone, Copy, PartialEq, Eq, Structural, Hash, Debug)]
pub enum TilePaletteStage {
    /// The palette of pages.
    Pages,
    /// The tiles of a page.
    Tiles,
}

/// The kind of a tile-set page, which decides how drawing operations
/// resolve against it.
#[derive(Clone, Copy, PartialEq, Eq, Structural, Hash, Debug)]
pub enum TileSetPageSource {
    /// A page whose tiles all share one material and differ only in the
    /// texture region they show.
    Material,
    /// A page of freeform tiles, each with its own full definition.
    Freeform,
    /// A page that redirects each of its cells to another tile, as the
    /// transformed version of that tile.
    TransformSet,
}

/// A rule of the transform table: querying `source` under `transform`
/// yields `target`.
#[derive(Clone, Copy, PartialEq, Eq, Structural, Debug)]
pub struct TransformRule {
    /// The transformation being applied.
    pub transform: OrthoTransformation,
    /// The tile being transformed.
    pub source: TileDefinitionHandle,
    /// The transformed version of the tile.
    pub target: TileDefinitionHandle,
}

/// The first matching rule of a transform table, if any.
pub open spec fn rule_lookup(
    rules: Seq<TransformRule>,
    transform: OrthoTransformation,
    source: TileDefinitionHandle,
) -> Option<TileDefinitionHandle>
    decreases rules.len(),
{
    if rules.len() == 0 {
        None
    } else if rules[0].transform == transform && rules[0].source == source {
        Some(rules[0].target)
    } else {
        rule_lookup(rules.drop_first(), transform, source)
    }
}

/// A tile set, as far as the update engine reads it: the kind of each
/// page, the definitions of freeform tiles, and the table of transformed
/// tile versions.
pub struct TileSet {
    pages: TileGridMap<TileSetPageSource>,
    definitions: GridMap<TileDefinitionHandle, TileDefinition>,
    transforms: Vec<TransformRule>,
}

impl TileSet {
    /// The kind of each page, by page position.
    pub closed spec fn pages_view(&self) -> Map<Vector2I, TileSetPageSource> {
        self.pages@
    }

    /// The definitions of freeform tiles, by handle.
    pub closed spec fn definitions_view(&self) -> Map<TileDefinitionHandle, TileDefinition> {
        self.definitions@
    }

    /// The transform table, in lookup order.
    pub closed spec fn transforms_view(&self) -> Seq<TransformRule> {
        self.transforms@
    }

    /// An empty tile set.
    pub fn new() -> (r: Self)
        ensures
            r.pages_view() == Map::<Vector2I, TileSetPageSource>::empty(),
            r.definitions_view() == Map::<TileDefinitionHandle, TileDefinition>::empty(),
            r.transforms_view() == Seq::<TransformRule>::empty(),
    {
        TileSet { pages: GridMap::new(), definitions: GridMap::new(), transforms: Vec::new() }
    }

    /// Add a page of the given kind at the given position.
    pub fn add_page(&mut self, position: Vector2I, kind: TileSetPageSource)
        requires
            vec_ok(position),
        ensures
            final(self).pages_view() == old(self).pages_view().insert(position, kind),
            final(self).definitions_view() == old(self).definitions_view(),
            final(self).transforms_view() == old(self).transforms_view(),
    {
        let mut pages = GridMap::new();
        core::mem::swap(&mut pages, &mut self.pages);
        pages.insert(position, kind);
        self.pages = pages;
    }

    /// Store the definition of a freeform tile.
    pub fn set_definition(&mut self, handle: TileDefinitionHandle, definition: TileDefinition)
        ensures
            final(self).definitions_view() == old(self).definitions_view().insert(
                handle,
                definition,
            ),
            final(self).pages_view() == old(self).pages_view(),
            final(self).transforms_view() == old(self).transforms_view(),
    {
        let mut definitions = GridMap::new();
        core::mem::swap(&mut definitions, &mut self.definitions);
        definitions.insert(handle, definition);
        self.definitions = definitions;
    }

    /// Append a rule to the transform table.
    pub fn add_transform_rule(&mut self, rule: TransformRule)
        ensures
            final(self).transforms_view() == old(self).transforms_view().push(rule),
            final(self).pages_view() == old(self).pages_view(),
            final(self).definitions_view() == old(self).definitions_view(),
    {
        let mut transforms = Vec::new();
        core::mem::swap(&mut transforms, &mut self.transforms);
        transforms.push(rule);
        self.transforms = transforms;
    }

    /// The kind of the page at the given position, if there is one.
    pub fn get_page(&self, position: Vector2I) -> (r: Option<TileSetPageSource>)
        ensures
            r == if self.pages_view().contains_key(position) {
                Some(self.pages_view()[position])
            } else {
                None::<TileSetPageSource>
            },
    {
        match self.pages.get(&position) {
            Some(kind) => Some(*kind),
            None => None,
        }
    }

    /// The transformed version of the given tile under the given
    /// transformation, per the first matching rule of the transform table.
    pub fn get_transformed_version(
        &self,
        transform: OrthoTransformation,
        handle: TileDefinitionHandle,
    ) -> (r: Option<TileDefinitionHandle>)
        ensures
            r == rule_lookup(self.transforms_view(), transform, handle),
    {
        let n = self.transforms.len();
        let mut i: usize = 0;
        proof {
            assert(self.transforms@.skip(0) =~= self.transforms@);
        }
        while i < n
            invariant
                i <= n,
                n == self.transforms@.len(),
                rule_lookup(self.transforms@, transform, handle) == rule_lookup(
                    self.transforms@.skip(i as int),
                    transform,
                    handle,
                ),
            decreases n - i,
        {
            let rule = &self.transforms[i];
            let ghost rest = self.transforms@.skip(i as int);
            proof {
                assert(rest[0] == self.transforms@[i as int]);
                assert(rest.drop_first() =~= self.transforms@.skip(i + 1));
            }
            if rule.transform.same_as(&transform) && crate::grid_map::GridKey::key_eq(
                &rule.source,
                &handle,
            ) {
                return Some(rule.target);
            }
            i = i + 1;
        }
        proof {
            assert(self.transforms@.skip(n as int) =~= Seq::<TransformRule>::empty());
        }
        None
    }

    /// The render data of the tile at the given handle, from its stored
    /// definition.
    pub fn get_render_data(&self, handle: TileDefinitionHandle) -> (r: Option<TileRenderData>)
        ensures
            r == (if self.definitions_view().contains_key(handle) {
                Some(
                    TileRenderData {
                        material_bounds: Some(
                            self.definitions_view()[handle].material_bounds,
                        ),
                        color: self.definitions_view()[handle].data.color,
                    },
                )
            } else {
                None::<TileRenderData>
            }),
    {
        match self.definitions.get(&handle) {
            Some(def) => Some(
                TileRenderData {
                    material_bounds: Some(def.material_bounds),
                    color: def.data.color,
                },
            ),
            None => None,
        }
    }

    /// A copy of the editable data of the tile at the given handle, from
    /// its stored definition.
    pub fn get_tile_data(&self, handle: TileDefinitionHandle) -> (r: Option<TileData>)
        ensures
            match r {
                Some(data) => self.definitions_view().contains_key(handle) && {
                    let stored = self.definitions_view()[handle].data;
                    &&& data.color == stored.color
                    &&& data.properties@ == stored.properties@
                    &&& data.collider@ == stored.collider@
                },
                None => !self.definitions_view().contains_key(handle),
            },
    {
        match self.definitions.get(&handle) {
            Some(def) => Some(def.data.duplicate()),
            None => None,
        }
    }

    /// The definition used for the given tile under the given
    /// transformation: the definition of its transformed version when the
    /// transform table redirects it, and of the tile itself otherwise.
    pub fn get_transformed_definition(
        &self,
        transform: OrthoTransformation,
        handle: TileDefinitionHandle,
    ) -> (r: Option<TileDefinition>)
        ensures
            ({
                let resolved = match rule_lookup(self.transforms_view(), transform, handle) {
                    Some(h) => h,
                    None => handle,
                };
                match r {
                    Some(def) => self.definitions_view().contains_key(resolved) && {
                        let stored = self.definitions_view()[resolved];
                        &&& def.material_bounds == stored.material_bounds
                        &&& def.data.color == stored.data.color
                        &&& def.data.properties@ == stored.data.properties@
                        &&& def.data.collider@ == stored.data.collider@
                    },
                    None => !self.definitions_view().contains_key(resolved),
                }
            }),
    {
        let resolved = match self.get_transformed_version(transform, handle) {
            Some(h) => h,
            None => handle,
        };
        match self.definitions.get(&resolved) {
            Some(def) => Some(def.duplicate()),
            None => None,
        }
    }
}

} // verus!
