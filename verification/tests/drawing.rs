//! Tests for the tile-grid drawing engine: handles, stamps, lines, fills
//! and nine-slice stamping.

use tilegrid::geom::Vector2I;
use tilegrid::handle::TileDefinitionHandle;
use tilegrid::source::RandomTileSource;
use tilegrid::source::RepeatTileSource;
use tilegrid::source::SingleTileSource;
use tilegrid::source::Stamp;
use tilegrid::source::TileRegion;
use tilegrid::source::TileSource;
use tilegrid::source::Tiles;
use tilegrid::transform::OrthoTransformation;
use tilegrid::update::TransTilesUpdate;

fn v(x: i32, y: i32) -> Vector2I {
    Vector2I::new(x, y)
}

fn h(a: i16, b: i16, c: i16, d: i16) -> TileDefinitionHandle {
    TileDefinitionHandle::new(a, b, c, d)
}

#[test]
fn handle_round_trip() {
    let handle = TileDefinitionHandle::try_new(v(5, -3), v(7, 9)).unwrap();
    assert_eq!(handle.page(), v(5, -3));
    assert_eq!(handle.tile(), v(7, 9));
    assert!(TileDefinitionHandle::try_new(v(40000, 0), v(0, 0)).is_none());
    assert!(TileDefinitionHandle::try_new(v(0, 0), v(0, -40000)).is_none());
    assert!(TileDefinitionHandle::try_new(v(32767, -32768), v(-32768, 32767)).is_some());
}

#[test]
fn stamp_draw_and_erase() {
    let mut stamp = Stamp::new();
    stamp.insert(v(0, 0), h(0, 0, 1, 1));
    stamp.insert(v(1, 0), h(0, 0, 2, 2));
    let mut update = TransTilesUpdate::new();
    update.draw_tiles(v(10, 20), &stamp);
    assert_eq!(update.len(), 2);
    let t = OrthoTransformation::identity();
    assert_eq!(*update.get(&v(10, 20)).unwrap(), Some((t, h(0, 0, 1, 1))));
    assert_eq!(*update.get(&v(11, 20)).unwrap(), Some((t, h(0, 0, 2, 2))));
    update.erase_stamp(v(10, 20), &stamp);
    assert_eq!(*update.get(&v(10, 20)).unwrap(), None);
    assert_eq!(*update.get(&v(11, 20)).unwrap(), None);
}

#[test]
fn stamp_build_recenters() {
    let mut stamp = Stamp::new();
    let source = vec![
        (v(10, 10), h(0, 0, 0, 0)),
        (v(11, 10), h(0, 0, 1, 0)),
        (v(10, 11), h(0, 0, 0, 1)),
        (v(11, 11), h(0, 0, 1, 1)),
    ];
    stamp.build(&source);
    // the 2x2 block is recentered so its bounding-box center is at (0,0)
    assert_eq!(stamp.len(), 4);
    assert_eq!(stamp.get_at(v(-1, -1)), Some(h(0, 0, 0, 0)));
    assert_eq!(stamp.get_at(v(0, -1)), Some(h(0, 0, 1, 0)));
    assert_eq!(stamp.get_at(v(-1, 0)), Some(h(0, 0, 0, 1)));
    assert_eq!(stamp.get_at(v(0, 0)), Some(h(0, 0, 1, 1)));
}

#[test]
fn stamp_rotate_moves_tiles() {
    let mut stamp = Stamp::new();
    stamp.insert(v(1, 0), h(0, 0, 5, 5));
    stamp.rotate(1);
    // a quarter turn counter-clockwise maps (1,0) to (0,1)
    assert_eq!(stamp.get_at(v(0, 1)), Some(h(0, 0, 5, 5)));
    assert_eq!(stamp.get_at(v(1, 0)), None);
    stamp.x_flip();
    assert_eq!(stamp.get_at(v(0, 1)), Some(h(0, 0, 5, 5)));
    stamp.y_flip();
    assert_eq!(stamp.get_at(v(0, -1)), Some(h(0, 0, 5, 5)));
}

#[test]
fn line_is_monotone_staircase() {
    // drawing a line from (0,0) to (3,1) with a single-tile source
    let mut update = TransTilesUpdate::new();
    let source = SingleTileSource(OrthoTransformation::identity(), h(0, 0, 7, 7));
    update.draw_line(v(0, 0), v(3, 1), &source);
    assert_eq!(update.len(), 4);
    let mut ys = Vec::new();
    for x in 0..4 {
        let mut found = None;
        for y in 0..2 {
            if update.get(&v(x, y)).is_some() {
                found = Some(y);
            }
        }
        ys.push(found.expect("one cell per column"));
    }
    // y never decreases as x increases
    for k in 1..ys.len() {
        assert!(ys[k - 1] <= ys[k]);
    }
    assert_eq!(ys[0], 0);
    assert_eq!(ys[3], 1);
    for x in 0..4 {
        let cell = update.get(&v(x, ys[x as usize])).unwrap();
        assert_eq!(*cell, Some((OrthoTransformation::identity(), h(0, 0, 7, 7))));
    }
}

#[test]
fn repeat_source_is_periodic() {
    let mut stamp = Stamp::new();
    stamp.insert(v(0, 0), h(0, 0, 1, 0));
    stamp.insert(v(1, 0), h(0, 0, 2, 0));
    let repeat = stamp.repeat(v(0, 0), v(5, 0));
    for x in -6i32..=6 {
        let expected = if x.rem_euclid(2) == 0 {
            h(0, 0, 1, 0)
        } else {
            h(0, 0, 2, 0)
        };
        assert_eq!(repeat.get_at(v(x, 0)), Some(expected));
        assert_eq!(repeat.get_at(v(x + 2, 0)), repeat.get_at(v(x, 0)));
    }
}

#[test]
fn rect_fill_tiles_area() {
    let mut stamp = Stamp::new();
    stamp.insert(v(0, 0), h(0, 0, 1, 0));
    stamp.insert(v(1, 0), h(0, 0, 2, 0));
    let mut update = TransTilesUpdate::new();
    update.rect_fill(v(0, 0), v(3, 1), &stamp);
    assert_eq!(update.len(), 8);
    // the two-tile stamp alternates along x and repeats along y
    for y in 0..2 {
        for x in 0..4 {
            let cell = update.get(&v(x, y)).expect("cell filled");
            let expected = if x % 2 == 0 {
                h(0, 0, 1, 0)
            } else {
                h(0, 0, 2, 0)
            };
            assert_eq!(*cell, Some((OrthoTransformation::identity(), expected)));
        }
    }
}

#[test]
fn random_source_draws_from_stamp() {
    let mut stamp = Stamp::new();
    stamp.insert(v(0, 0), h(0, 0, 9, 9));
    let source = RandomTileSource(&stamp);
    // with a single tile in the stamp, every sample must be that tile
    for _ in 0..32 {
        assert_eq!(source.get_at(v(0, 0)), Some(h(0, 0, 9, 9)));
    }
    let empty = Stamp::new();
    assert_eq!(RandomTileSource(&empty).get_at(v(0, 0)), None);
}

#[test]
fn rect_fill_random_covers_area() {
    let mut stamp = Stamp::new();
    stamp.insert(v(0, 0), h(0, 0, 3, 3));
    let mut update = TransTilesUpdate::new();
    update.rect_fill_random(v(0, 0), v(2, 2), &stamp);
    assert_eq!(update.len(), 9);
    for y in 0..3 {
        for x in 0..3 {
            let cell = update.get(&v(x, y)).expect("cell filled");
            assert_eq!(*cell, Some((OrthoTransformation::identity(), h(0, 0, 3, 3))));
        }
    }
}

#[test]
fn flood_fill_covers_component() {
    // an all-empty grid whose bounds are stretched by one far-away tile
    let mut tiles = Tiles::new();
    tiles.insert(v(2, 2), h(0, 0, 8, 8));
    let mut update = TransTilesUpdate::new();
    let brush = SingleTileSource(OrthoTransformation::identity(), h(0, 0, 1, 1));
    update.flood_fill(&tiles, v(0, 0), &brush);
    // every empty cell of the 3x3 bounds is 4-connected to the seed
    assert_eq!(update.len(), 8);
    for y in 0..3 {
        for x in 0..3 {
            if x == 2 && y == 2 {
                assert!(update.get(&v(x, y)).is_none());
            } else {
                let cell = update.get(&v(x, y)).expect("cell filled");
                assert_eq!(*cell, Some((OrthoTransformation::identity(), h(0, 0, 1, 1))));
            }
        }
    }
}

#[test]
fn flood_fill_is_idempotent() {
    let mut tiles = Tiles::new();
    tiles.insert(v(1, 0), h(0, 0, 8, 8));
    let mut update = TransTilesUpdate::new();
    let brush = SingleTileSource(OrthoTransformation::identity(), h(0, 0, 1, 1));
    update.flood_fill(&tiles, v(0, 0), &brush);
    let first_len = update.len();
    // the fill wrote the seed cell, so a second pass finds nothing to do
    update.flood_fill(&tiles, v(0, 0), &brush);
    assert_eq!(update.len(), first_len);
}

#[test]
fn flood_fill_respects_tile_identity() {
    // two regions of the same tile separated by a different tile
    let mut tiles = Tiles::new();
    let wall = h(0, 0, 2, 0);
    for y in 0..3 {
        tiles.insert(v(1, y), wall);
    }
    tiles.insert(v(0, 0), h(0, 0, 1, 0));
    tiles.insert(v(2, 0), h(0, 0, 1, 0));
    let mut update = TransTilesUpdate::new();
    let brush = SingleTileSource(OrthoTransformation::identity(), h(0, 0, 9, 9));
    update.flood_fill(&tiles, v(0, 0), &brush);
    // only the left region matching the seed's tile is filled
    assert!(update.get(&v(0, 0)).is_some());
    assert!(update.get(&v(2, 0)).is_none());
    assert!(update.get(&v(1, 0)).is_none());
}

fn three_by_three_stamp() -> Stamp {
    let mut stamp = Stamp::new();
    for y in 0..3i16 {
        for x in 0..3i16 {
            stamp.insert(v(x as i32, y as i32), h(0, 0, x, y));
        }
    }
    stamp
}

#[test]
fn nine_slice_places_parts() {
    let stamp = three_by_three_stamp();
    let mut update = TransTilesUpdate::new();
    update.nine_slice(v(0, 0), v(4, 4), &stamp);
    let t = OrthoTransformation::identity();
    // corners carry the stamp's corner tiles
    assert_eq!(*update.get(&v(0, 0)).unwrap(), Some((t, h(0, 0, 0, 0))));
    assert_eq!(*update.get(&v(4, 0)).unwrap(), Some((t, h(0, 0, 2, 0))));
    assert_eq!(*update.get(&v(0, 4)).unwrap(), Some((t, h(0, 0, 0, 2))));
    assert_eq!(*update.get(&v(4, 4)).unwrap(), Some((t, h(0, 0, 2, 2))));
    // the interior is filled with the center tile
    assert_eq!(*update.get(&v(2, 2)).unwrap(), Some((t, h(0, 0, 1, 1))));
    // edges use the edge tiles
    assert_eq!(*update.get(&v(2, 0)).unwrap(), Some((t, h(0, 0, 1, 0))));
    assert_eq!(*update.get(&v(2, 4)).unwrap(), Some((t, h(0, 0, 1, 2))));
    assert_eq!(*update.get(&v(0, 2)).unwrap(), Some((t, h(0, 0, 0, 1))));
    assert_eq!(*update.get(&v(4, 2)).unwrap(), Some((t, h(0, 0, 2, 1))));
    assert_eq!(update.len(), 25);
}

#[test]
fn nine_slice_narrow_target_keeps_short_axis_on_edges() {
    let stamp = three_by_three_stamp();
    let mut update = TransTilesUpdate::new();
    // a target only 2 cells wide: no top or bottom edge fill, no interior
    update.nine_slice(v(0, 0), v(1, 4), &stamp);
    for i in 0..update.len() {
        let (pos, _) = {
            let e = update.entry_at(i);
            (e.0, *e.1)
        };
        assert!(pos.x == 0 || pos.x == 1);
    }
    // and a target only 2 cells tall keeps every write on the two rows
    let mut update2 = TransTilesUpdate::new();
    update2.nine_slice(v(0, 0), v(4, 1), &stamp);
    for i in 0..update2.len() {
        let e = update2.entry_at(i);
        assert!(e.0.y == 0 || e.0.y == 1);
    }
}

#[test]
fn region_deflate_shrinks_bounds() {
    let region = TileRegion::from_points(v(0, 0), v(4, 4)).deflate(1, 1);
    let bounds = region.bounds.0.unwrap();
    assert_eq!(bounds.position(), v(1, 1));
    assert_eq!(bounds.size(), v(3, 3));
    // deflating a 2-wide region leaves nothing
    let slim = TileRegion::from_points(v(0, 0), v(1, 4)).deflate(1, 1);
    assert!(slim.bounds.0.is_none());
}

#[test]
fn repeat_source_with_region() {
    let mut tiles = Tiles::new();
    tiles.insert(v(0, 0), h(0, 0, 1, 0));
    let region = TileRegion::from_points(v(0, 0), v(0, 0));
    let source = RepeatTileSource { source: &tiles, region };
    assert_eq!(source.get_at(v(17, -5)), Some(h(0, 0, 1, 0)));
}

#[test]
fn display_and_parse_round_trip() {
    let cases = vec![
        h(0, 0, 0, 0),
        h(1, -2, 3, 4),
        h(-32768, 32767, -1, 1),
        h(12345, -9876, 32767, -32768),
    ];
    for handle in cases {
        let text = handle.display_string();
        assert_eq!(TileDefinitionHandle::parse(&text), Some(handle));
    }
    assert_eq!(h(1, -2, 3, 4).display_string(), "(1,-2):(3,4)");
}

#[test]
fn parse_rejects_malformed_strings() {
    assert_eq!(TileDefinitionHandle::parse("(1,2):(3,4)"), Some(h(1, 2, 3, 4)));
    // token shaped like a number but out of the 16-bit range
    assert_eq!(TileDefinitionHandle::parse("(1,2):(3,40000)"), None);
    assert_eq!(TileDefinitionHandle::parse("(1,2):(3,-32769)"), None);
    assert_eq!(TileDefinitionHandle::parse("(1,2):(3,-32768)"), Some(h(1, 2, 3, -32768)));
    // too few or too many tokens
    assert_eq!(TileDefinitionHandle::parse("(1,2):(3)"), None);
    assert_eq!(TileDefinitionHandle::parse("(1,2):(3,4,5)"), None);
    // a minus sign inside a token
    assert_eq!(TileDefinitionHandle::parse("(1,2):(3,4-5)"), None);
    assert_eq!(TileDefinitionHandle::parse("(1,2):(3,-)"), None);
    // arbitrary separators are accepted
    assert_eq!(TileDefinitionHandle::parse("1 2 3 4"), Some(h(1, 2, 3, 4)));
    assert_eq!(TileDefinitionHandle::parse(""), None);
}

#[test]
fn nine_slice_empty_stamp_is_a_no_op() {
    let stamp = Stamp::new();
    let mut update = TransTilesUpdate::new();
    update.draw_tiles(v(0, 0), &{
        let mut marker = Stamp::new();
        marker.insert(v(0, 0), h(0, 0, 5, 5));
        marker
    });
    let before = update.len();
    update.nine_slice(v(0, 0), v(4, 4), &stamp);
    assert_eq!(update.len(), before);
    assert_eq!(
        *update.get(&v(0, 0)).unwrap(),
        Some((OrthoTransformation::identity(), h(0, 0, 5, 5)))
    );
}

#[test]
fn nine_slice_edges_wrap_the_stamp_edges() {
    // a 4-wide stamp whose top row alternates two tiles
    let mut stamp = Stamp::new();
    for y in 0..3i16 {
        for x in 0..4i16 {
            stamp.insert(v(x as i32, y as i32), h(0, 0, x, y));
        }
    }
    let mut update = TransTilesUpdate::new();
    update.nine_slice(v(0, 0), v(7, 4), &stamp);
    let t = OrthoTransformation::identity();
    // the top edge repeats the stamp's inner top tiles (columns 1 and 2)
    assert_eq!(*update.get(&v(1, 4)).unwrap(), Some((t, h(0, 0, 1, 2))));
    assert_eq!(*update.get(&v(2, 4)).unwrap(), Some((t, h(0, 0, 2, 2))));
    assert_eq!(*update.get(&v(3, 4)).unwrap(), Some((t, h(0, 0, 1, 2))));
    assert_eq!(*update.get(&v(4, 4)).unwrap(), Some((t, h(0, 0, 2, 2))));
}
