//! Tests for the visibility cache and for tile-set update resolution and
//! swap-based undo.

use tilegrid::geom::Vector2I;
use tilegrid::geom::Vector3I;
use tilegrid::handle::TileDefinitionHandle;
use tilegrid::source::Tiles;
use tilegrid::tile_set::Color;
use tilegrid::tile_set::TileData;
use tilegrid::tile_set::TileDefinition;
use tilegrid::tile_set::TileMaterialBounds;
use tilegrid::tile_set::TileSet;
use tilegrid::tile_set::TileSetPageSource;
use tilegrid::tile_set::TileCollider;
use tilegrid::tile_set::TileRenderData;
use tilegrid::tile_set::TileSetPropertyValue;
use tilegrid::transform::OrthoTransformation;
use tilegrid::update::TileDataUpdate;
use tilegrid::update::TileSetUpdate;
use tilegrid::update::TilesUpdate;
use tilegrid::update::TransTilesUpdate;
use tilegrid::visibility::Granularity;
use tilegrid::visibility::MilliPos;
use tilegrid::visibility::ObserverVisibilityCache;
use tilegrid::visibility::Visibility;
use tilegrid::visibility::VisibilityCache;

fn v(x: i32, y: i32) -> Vector2I {
    Vector2I::new(x, y)
}

fn h(a: i16, b: i16, c: i16, d: i16) -> TileDefinitionHandle {
    TileDefinitionHandle::new(a, b, c, d)
}

fn milli(x: i64, y: i64, z: i64) -> MilliPos {
    MilliPos { x, y, z }
}

fn gran2() -> Granularity {
    Granularity { x: 2, y: 2, z: 2 }
}

#[test]
fn grid_cell_rounds_to_nearest() {
    let cache = ObserverVisibilityCache::new(gran2(), 100_000);
    // observer at the origin maps to cell (0,0,0)
    assert_eq!(cache.world_to_grid(milli(0, 0, 0)), Vector3I::new(0, 0, 0));
    // 0.24 world units scaled by 2 is 0.48, which rounds to 0
    assert_eq!(cache.world_to_grid(milli(240, 0, 0)), Vector3I::new(0, 0, 0));
    // 0.26 world units scaled by 2 is 0.52, which rounds to 1
    assert_eq!(cache.world_to_grid(milli(260, 0, 0)), Vector3I::new(1, 0, 0));
    // rounding is symmetric about zero
    assert_eq!(cache.world_to_grid(milli(-260, 0, 0)), Vector3I::new(-1, 0, 0));
}

#[test]
fn visibility_states_drive_queries_and_rendering() {
    assert!(!Visibility::Undefined.needs_occlusion_query());
    assert!(Visibility::Invisible.needs_occlusion_query());
    assert!(!Visibility::Visible.needs_occlusion_query());
    assert!(Visibility::Undefined.needs_rendering());
    assert!(!Visibility::Invisible.needs_rendering());
    assert!(Visibility::Visible.needs_rendering());
}

#[test]
fn visible_is_never_downgraded() {
    let mut cache = ObserverVisibilityCache::new(gran2(), 100_000);
    let pos = milli(0, 0, 0);
    let node = 42u64;
    // a pending query resolves positively: the object becomes visible
    cache.begin_non_conditional_query(1, pos, node);
    assert_eq!(cache.visibility_info(pos, node), Some(Visibility::Undefined));
    cache.update(pos, &vec![Some(true)]);
    assert_eq!(cache.visibility_info(pos, node), Some(Visibility::Visible));
    // a later negative sample does not downgrade it
    cache.begin_non_conditional_query(2, pos, node);
    cache.update(pos, &vec![Some(false)]);
    assert_eq!(cache.visibility_info(pos, node), Some(Visibility::Visible));
}

#[test]
fn invisible_upgrades_on_positive_sample() {
    let mut cache = ObserverVisibilityCache::new(gran2(), 100_000);
    let pos = milli(0, 0, 0);
    let node = 7u64;
    cache.begin_non_conditional_query(1, pos, node);
    cache.update(pos, &vec![Some(false)]);
    assert_eq!(cache.visibility_info(pos, node), Some(Visibility::Invisible));
    assert!(cache.needs_occlusion_query(pos, node));
    assert!(!cache.is_visible(pos, node));
    // a negative re-probe keeps it invisible
    cache.begin_non_conditional_query(2, pos, node);
    cache.update(pos, &vec![Some(false)]);
    assert_eq!(cache.visibility_info(pos, node), Some(Visibility::Invisible));
    // a positive re-probe upgrades it
    cache.begin_non_conditional_query(3, pos, node);
    cache.update(pos, &vec![Some(true)]);
    assert_eq!(cache.visibility_info(pos, node), Some(Visibility::Visible));
}

#[test]
fn conditional_query_inside_bounds_marks_visible() {
    let mut cache = ObserverVisibilityCache::new(gran2(), 100_000);
    let pos = milli(0, 0, 0);
    let started = cache.begin_conditional_query(1, pos, true, 5);
    assert!(!started);
    assert_eq!(cache.visibility_info(pos, 5), Some(Visibility::Visible));
    assert_eq!(cache.pending_len(), 0);
    // outside the bounds a query is issued and the state is pending
    let started = cache.begin_conditional_query(2, pos, false, 6);
    assert!(started);
    assert_eq!(cache.visibility_info(pos, 6), Some(Visibility::Undefined));
    assert_eq!(cache.pending_len(), 1);
    assert_eq!(cache.end_query().query, 2);
}

#[test]
fn incomplete_queries_are_retained() {
    let mut cache = ObserverVisibilityCache::new(gran2(), 100_000);
    let pos = milli(0, 0, 0);
    cache.begin_non_conditional_query(1, pos, 1);
    cache.begin_non_conditional_query(2, pos, 2);
    cache.update(pos, &vec![None, Some(true)]);
    assert_eq!(cache.pending_len(), 1);
    assert_eq!(cache.pending_at(0).query, 1);
    assert_eq!(cache.visibility_info(pos, 1), Some(Visibility::Undefined));
    assert_eq!(cache.visibility_info(pos, 2), Some(Visibility::Visible));
}

#[test]
fn distant_cells_are_evicted() {
    // threshold of one world unit
    let mut cache = ObserverVisibilityCache::new(gran2(), 1000);
    let origin = milli(0, 0, 0);
    cache.begin_conditional_query(1, origin, true, 9);
    assert_eq!(cache.visibility_info(origin, 9), Some(Visibility::Visible));
    // updating from nearby keeps the cell
    cache.update(milli(100, 0, 0), &vec![]);
    assert_eq!(cache.visibility_info(origin, 9), Some(Visibility::Visible));
    // updating from five world units away discards it
    cache.update(milli(5000, 0, 0), &vec![]);
    assert_eq!(cache.visibility_info(origin, 9), None);
}

#[test]
fn registry_creates_and_drops_observers() {
    let mut registry = VisibilityCache::new();
    registry.get_or_register(11, milli(0, 0, 0));
    assert!(registry.contains_observer(11));
    assert_eq!(registry.len(), 1);
    // registering again does not reset the stored data
    registry.get_or_register(11, milli(9, 9, 9));
    let data = registry.take_observer(11).unwrap();
    assert_eq!(data.position, milli(0, 0, 0));
    assert!(!registry.contains_observer(11));
    registry.put_observer(11, data);
    assert!(registry.contains_observer(11));
    assert!(registry.take_observer(99).is_none());
}

#[test]
fn swap_color_twice_restores_data() {
    let mut data = TileData::new();
    let original = data.color;
    let mut update = TileDataUpdate::Color(Color { r: 1, g: 2, b: 3, a: 4 });
    update.swap_with_data(&mut data);
    assert_eq!(data.color, Color { r: 1, g: 2, b: 3, a: 4 });
    match &update {
        TileDataUpdate::Color(c) => assert_eq!(*c, original),
        _ => panic!("swap must keep the variant"),
    }
    update.swap_with_data(&mut data);
    assert_eq!(data.color, original);
}

#[test]
fn swap_property_slice_twice_restores_data() {
    let mut data = TileData::new();
    let id = 77u128;
    let mut slots: [Option<i8>; 9] = [None; 9];
    slots[4] = Some(3);
    let mut update = TileDataUpdate::PropertySlice(id, slots);
    // the tile has no such property: the swap installs a fresh nine-slice
    update.swap_with_data(&mut data);
    match data.properties.get(&id) {
        Some(TileSetPropertyValue::NineSlice(v0)) => {
            assert_eq!(v0[4], 3);
            assert_eq!(v0[0], 0);
        }
        _ => panic!("nine-slice installed"),
    }
    match &update {
        TileDataUpdate::Property(pid, None) => assert_eq!(*pid, id),
        _ => panic!("update records the removal"),
    }
    // swapping the inverse update removes the property again
    update.swap_with_data(&mut data);
    assert!(data.properties.get(&id).is_none());
}

#[test]
fn swap_collider_twice_restores_data() {
    let mut data = TileData::new();
    data.collider.insert(5u128, TileCollider::Rectangle);
    let mut update = TileDataUpdate::Collider(5u128, Some(TileCollider::Mesh(9)));
    update.swap_with_data(&mut data);
    assert_eq!(*data.collider.get(&5u128).unwrap(), TileCollider::Mesh(9));
    update.swap_with_data(&mut data);
    assert_eq!(*data.collider.get(&5u128).unwrap(), TileCollider::Rectangle);
}

fn small_tile_set() -> TileSet {
    let mut ts = TileSet::new();
    ts.add_page(v(0, 0), TileSetPageSource::Material);
    ts.add_page(v(1, 0), TileSetPageSource::Freeform);
    ts.add_page(v(2, 0), TileSetPageSource::TransformSet);
    let def = TileDefinition {
        material_bounds: TileMaterialBounds::default(),
        data: TileData::new(),
    };
    ts.set_definition(h(1, 0, 3, 3), def);
    ts
}

#[test]
fn convert_respects_page_kind() {
    let ts = small_tile_set();
    let mut diff = TransTilesUpdate::new();
    let t = OrthoTransformation::identity();
    diff.insert(v(4, 4), Some((t, h(1, 0, 3, 3))));
    diff.insert(v(5, 4), None);

    // a material page turns entries into default tiles or erasures
    let mut update = TileSetUpdate::new();
    update.convert(&diff, &ts, v(0, 0));
    assert!(matches!(
        update.get(&h(0, 0, 4, 4)),
        Some(TileDataUpdate::MaterialTile(_))
    ));
    assert!(matches!(update.get(&h(0, 0, 5, 4)), Some(TileDataUpdate::Erase)));

    // a freeform page copies the definition from the tile set
    let mut update = TileSetUpdate::new();
    update.convert(&diff, &ts, v(1, 0));
    assert!(matches!(
        update.get(&h(1, 0, 4, 4)),
        Some(TileDataUpdate::FreeformTile(_))
    ));

    // a transform-set page stores a redirect
    let mut update = TileSetUpdate::new();
    update.convert(&diff, &ts, v(2, 0));
    assert_eq!(
        match update.get(&h(2, 0, 4, 4)) {
            Some(TileDataUpdate::TransformSet(handle)) => *handle,
            _ => panic!("transform redirect expected"),
        },
        Some(h(1, 0, 3, 3))
    );

    // a missing page is a silent no-op
    let mut update = TileSetUpdate::new();
    update.convert(&diff, &ts, v(9, 9));
    assert_eq!(update.len(), 0);
}

#[test]
fn build_tiles_update_resolves_handles() {
    let ts = small_tile_set();
    let mut diff = TransTilesUpdate::new();
    let t = OrthoTransformation::identity();
    diff.insert(v(0, 0), Some((t, h(1, 0, 3, 3))));
    diff.insert(v(1, 0), None);
    let update = TileSetUpdate::build_tiles_update(&diff, &ts);
    assert_eq!(*update.get(&v(0, 0)).unwrap(), Some(h(1, 0, 3, 3)));
    assert_eq!(*update.get(&v(1, 0)).unwrap(), None);
}

#[test]
fn swap_tiles_round_trips() {
    let mut tiles = Tiles::new();
    tiles.insert(v(0, 0), h(0, 0, 1, 1));
    let mut update = TilesUpdate::new();
    update.insert(v(0, 0), Some(h(0, 0, 2, 2)));
    update.insert(v(1, 0), Some(h(0, 0, 3, 3)));
    tiles.swap_tiles(&mut update);
    assert_eq!(tiles.get_at(v(0, 0)), Some(h(0, 0, 2, 2)));
    assert_eq!(tiles.get_at(v(1, 0)), Some(h(0, 0, 3, 3)));
    assert_eq!(*update.get(&v(0, 0)).unwrap(), Some(h(0, 0, 1, 1)));
    assert_eq!(*update.get(&v(1, 0)).unwrap(), None);
    // swapping again undoes the change
    tiles.swap_tiles(&mut update);
    assert_eq!(tiles.get_at(v(0, 0)), Some(h(0, 0, 1, 1)));
    assert_eq!(tiles.get_at(v(1, 0)), None);
}

#[test]
fn set_and_get_update_entries() {
    let mut update = TileSetUpdate::new();
    let page = v(0, 0);
    let pos = v(3, 3);
    update.set_color(page, pos, Color { r: 9, g: 8, b: 7, a: 6 });
    assert_eq!(update.get_color(page, pos), Some(Color { r: 9, g: 8, b: 7, a: 6 }));
    assert_eq!(update.get_color(page, v(4, 4)), None);

    update.set_property(page, pos, 3u128, Some(TileSetPropertyValue::Whole(12)));
    assert_eq!(
        update.get_property(page, pos, 3u128),
        Some(Some(TileSetPropertyValue::Whole(12)))
    );
    // the color write was replaced by the property write
    assert_eq!(update.get_color(page, pos), None);
}

#[test]
fn property_slice_merges_into_existing_updates() {
    let mut update = TileSetUpdate::new();
    let page = v(0, 0);
    let pos = v(1, 1);
    let id = 5u128;
    update.set_property_slice(page, pos, v(0, 0), id, 4);
    match update.get(&h(0, 0, 1, 1)) {
        Some(TileDataUpdate::PropertySlice(pid, slots)) => {
            assert_eq!(*pid, id);
            assert_eq!(slots[0], Some(4));
            assert_eq!(slots[1], None);
        }
        _ => panic!("slice update expected"),
    }
    update.set_property_slice(page, pos, v(1, 1), id, 7);
    match update.get(&h(0, 0, 1, 1)) {
        Some(TileDataUpdate::PropertySlice(pid, slots)) => {
            assert_eq!(*pid, id);
            assert_eq!(slots[0], Some(4));
            assert_eq!(slots[4], Some(7));
        }
        _ => panic!("slice update expected"),
    }
}

#[test]
fn modify_render_overrides_fields() {
    let base = TileRenderData { material_bounds: None, color: Color::default() };
    assert_eq!(TileDataUpdate::Erase.modify_render(&base), None);
    let recolor = TileDataUpdate::Color(Color { r: 1, g: 1, b: 1, a: 1 });
    assert_eq!(
        recolor.modify_render(&base).unwrap().color,
        Color { r: 1, g: 1, b: 1, a: 1 }
    );
    let sub = TileDataUpdate::TransformSet(Some(h(0, 0, 2, 2)));
    assert_eq!(sub.substitute_transform_handle(h(0, 0, 1, 1)), Some(h(0, 0, 2, 2)));
    assert_eq!(
        TileDataUpdate::Erase.substitute_transform_handle(h(0, 0, 1, 1)),
        Some(h(0, 0, 1, 1))
    );
}

#[test]
fn palette_render_loop_lists_resolvable_cells() {
    let mut brush = tilegrid::brush::TileMapBrush::new();
    let mut tiles = Tiles::new();
    tiles.insert(v(0, 0), h(1, 0, 3, 3));
    tiles.insert(v(1, 0), h(1, 0, 9, 9));
    let page = tilegrid::brush::TileMapBrushPage { icon: Some(h(1, 0, 3, 3)), tiles };
    brush.pages.insert(v(0, 0), page);
    let bare = tilegrid::brush::TileMapBrushPage { icon: None, tiles: Tiles::new() };
    brush.pages.insert(v(1, 0), bare);
    brush.tile_set = Some(small_tile_set());

    // the tiles palette lists only the tile the tile set defines
    let listed = brush.palette_render_loop(tilegrid::tile_set::TilePaletteStage::Tiles, v(0, 0));
    assert_eq!(listed.len(), 1);
    assert_eq!(listed[0].0, v(0, 0));
    assert_eq!(listed[0].1.material_bounds, Some(TileMaterialBounds::default()));

    // the pages palette lists the resolvable icon and a missing-data entry
    let pages = brush.palette_render_loop(tilegrid::tile_set::TilePaletteStage::Pages, v(0, 0));
    assert_eq!(pages.len(), 2);
    let missing = pages.iter().find(|(pos, _)| *pos == v(1, 0)).expect("icon-less page listed");
    assert_eq!(missing.1, TileRenderData::missing_data());
    let resolved = pages.iter().find(|(pos, _)| *pos == v(0, 0)).expect("icon resolved");
    assert_eq!(resolved.1.material_bounds, Some(TileMaterialBounds::default()));

    // without a tile set the palette is empty
    brush.tile_set = None;
    assert!(brush.palette_render_loop(tilegrid::tile_set::TilePaletteStage::Pages, v(0, 0)).is_empty());
}
