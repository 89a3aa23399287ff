//! Projection math: golden values, round trips, zoom search.

use tileworld::projection::{
    find_optimal_zoom, lat_lng_to_tile, lng_to_tile_x, merc_to_tile_y, pow2_u64, tile_to_lat_lng,
    tile_to_millimeters, GeoPoint, MAX_ZOOM, REGION_ZOOM_LEVEL,
};
use tileworld::tile::{calculate_tile_coordinates, TileKey};

/// Mercator fraction of a latitude, scaled by 2^32 (float leg of the
/// projection, done here in the tests only).
fn merc_q32(lat: f64) -> u64 {
    let r = lat.to_radians();
    let m = (1.0 - ((r.tan() + 1.0 / r.cos()).ln()) / std::f64::consts::PI) / 2.0;
    (m * 4294967296.0).floor() as u64
}

/// cos(lat) scaled by 2^16.
fn cos_q16(lat: f64) -> u64 {
    (lat.to_radians().cos() * 65536.0).floor() as u64
}

#[test]
fn groningen_anchor_is_stable() {
    // The seeded default region: lat 53.2194, lng 6.5665, zoom 17.
    let p = GeoPoint {
        lng_udeg: 6_566_500,
        merc_y: merc_q32(53.2194),
    };
    assert_eq!(lat_lng_to_tile(p, 17), (67926, 42563));
    let k = calculate_tile_coordinates(p);
    assert_eq!(k, TileKey { x: 67926, y: 42563, z: REGION_ZOOM_LEVEL });
}

#[test]
fn round_trip_all_zooms() {
    for zoom in 0..=MAX_ZOOM {
        let n: u32 = (pow2_u64(zoom)) as u32;
        let samples = [0, n / 2, n.saturating_sub(1), n / 3];
        for &x in &samples {
            for &y in &samples {
                let p = tile_to_lat_lng(x, y, zoom);
                assert_eq!(lat_lng_to_tile(p, zoom), (x, y));
            }
        }
    }
}

#[test]
fn round_trip_through_floats() {
    // The corner returned for a tile, converted to float latitude and
    // longitude and back through the float legs, still floors into the
    // same tile.
    let (x, y, zoom) = (67926u32, 42563u32, 17u32);
    let p = tile_to_lat_lng(x, y, zoom);
    let lng = p.lng_udeg as f64 / 1.0e6;
    let lat = ((std::f64::consts::PI
        * (1.0 - 2.0 * (p.merc_y as f64 / 4294967296.0)))
        .sinh())
    .atan()
    .to_degrees();
    let back = GeoPoint {
        lng_udeg: (lng * 1.0e6).floor() as i64,
        merc_y: merc_q32(lat),
    };
    assert_eq!(lat_lng_to_tile(back, zoom), (x, y));
}

#[test]
fn corner_of_a_tile_has_exact_coordinates() {
    // Top-left corner of the default region's tile: the Mercator edge
    // is exact, the longitude is rounded up into the tile.
    let p = tile_to_lat_lng(67926, 42563, 17);
    assert_eq!(p.merc_y, 42563u64 * (1 << 15));
    assert_eq!(p.lng_udeg, 6_564_332);
}

#[test]
fn lng_axis_matches_formula() {
    // x = floor((lng + 180) / 360 * 2^zoom), here lng = 0 and 90 deg.
    assert_eq!(lng_to_tile_x(0, 1), 1);
    assert_eq!(lng_to_tile_x(-180_000_000, 5), 0);
    assert_eq!(lng_to_tile_x(90_000_000, 2), 3);
    assert_eq!(lng_to_tile_x(6_566_500, 17), 67926);
    // Just west of the prime meridian, the left half of the world.
    assert_eq!(lng_to_tile_x(-500_000, 1), 0);
    // Just east of the antimeridian, the last column.
    assert_eq!(lng_to_tile_x(179_999_999, 3), 7);
}

#[test]
fn merc_axis_matches_formula() {
    // y = floor(m * 2^zoom) for the world fraction m.
    assert_eq!(merc_to_tile_y(0, 5), 0);
    assert_eq!(merc_to_tile_y(0x8000_0000, 1), 1);
    assert_eq!(merc_to_tile_y(1394732983, 17), 42563);
}

#[test]
fn tile_width_golden_values() {
    // Equator, zoom 0: the whole circumference.
    assert_eq!(tile_to_millimeters(0, 65536), 40_075_016_686);
    // Groningen latitude, zoom 17: about 183 meters per tile.
    assert_eq!(tile_to_millimeters(17, cos_q16(53.2194)), 183_063);
}

#[test]
fn tile_width_strictly_decreases_with_zoom() {
    for &cos in &[65536u64, cos_q16(53.2194), cos_q16(84.9)] {
        let mut prev = tile_to_millimeters(0, cos);
        for zoom in 1..=MAX_ZOOM {
            let next = tile_to_millimeters(zoom, cos);
            assert!(next < prev, "zoom {zoom} did not shrink the tile");
            prev = next;
        }
    }
}

#[test]
fn optimal_zoom_for_region_size() {
    // A region-sized target (256 m) at the default latitude is closest
    // to zoom 17, the fixed region anchoring zoom.
    assert_eq!(
        find_optimal_zoom(tileworld::projection::REGION_SIZE_MILLIMETERS, cos_q16(53.2194)),
        REGION_ZOOM_LEVEL
    );
    // A target as wide as the planet picks zoom 0.
    assert_eq!(find_optimal_zoom(40_075_016_686, 65536), 0);
    // A tiny target runs to the deepest zoom.
    assert_eq!(find_optimal_zoom(1, 65536), MAX_ZOOM);
}

#[test]
fn optimal_zoom_ties_take_the_lower_zoom() {
    // Halfway between the widths of zooms 1 and 2 at the equator the
    // two diffs are equal; the ascending scan must keep zoom 1.
    let m1 = tile_to_millimeters(1, 65536);
    let m2 = tile_to_millimeters(2, 65536);
    let target = (m1 + m2) / 2;
    assert_eq!(m1 - target, target - m2, "not an exact tie");
    assert_eq!(find_optimal_zoom(target, 65536), 1);
}
