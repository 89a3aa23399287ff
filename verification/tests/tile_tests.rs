//! Tile addresses, validation, cache keys, URL and path rendering,
//! prim shape parsing, and region anchoring.

use tileworld::fetch::get_osm_tile_url;
use tileworld::projection::GeoPoint;
use tileworld::region::{PrimShape, RegionAnchor};
use tileworld::tile::{FilterMode, TileKey};

#[test]
fn try_new_accepts_only_grid_addresses() {
    assert_eq!(
        TileKey::try_new(67926, 42563, 17),
        Some(TileKey { x: 67926, y: 42563, z: 17 })
    );
    assert_eq!(TileKey::try_new(0, 0, 0), Some(TileKey { x: 0, y: 0, z: 0 }));
    assert_eq!(TileKey::try_new(3, 3, 2), Some(TileKey { x: 3, y: 3, z: 2 }));
    // One past the edge of the grid, negative, or too deep: rejected.
    assert_eq!(TileKey::try_new(131072, 0, 17), None);
    assert_eq!(TileKey::try_new(0, 131072, 17), None);
    assert_eq!(TileKey::try_new(-1, 0, 17), None);
    assert_eq!(TileKey::try_new(0, -1, 17), None);
    assert_eq!(TileKey::try_new(0, 0, 20), None);
    assert_eq!(TileKey::try_new(0, 0, -1), None);
    assert_eq!(TileKey::try_new(4, 3, 2), None);
}

#[test]
fn cache_key_packs_and_orders() {
    let k = TileKey::new(67926, 42563, 17);
    assert_eq!(
        k.cache_key(),
        17u64 * 0x100_0000_0000 + 67926u64 * 0x10_0000 + 42563u64
    );
    // Key order follows (z, x, y) order.
    let lower_zoom = TileKey::new(131071, 131071, 17);
    let higher_zoom = TileKey::new(0, 0, 18);
    assert!(lower_zoom.cache_key() < higher_zoom.cache_key());
    let west = TileKey::new(10, 99, 17);
    let east = TileKey::new(11, 0, 17);
    assert!(west.cache_key() < east.cache_key());
}

#[test]
fn address_renders_as_path_and_url() {
    let k = TileKey::new(67926, 42563, 17);
    assert_eq!(k.to_string(), "17/67926/42563");
    assert_eq!(
        get_osm_tile_url(k.x, k.y, k.z),
        "https://tile.openstreetmap.org/17/67926/42563.png"
    );
    let origin = TileKey::new(0, 0, 0);
    assert_eq!(origin.to_string(), "0/0/0");
    assert_eq!(
        get_osm_tile_url(0, 0, 0),
        "https://tile.openstreetmap.org/0/0/0.png"
    );
}

#[test]
fn prim_shapes_parse_case_insensitively() {
    // Mixed case exercises the lowercasing for real.
    assert_eq!(PrimShape::from_str("Sphere"), PrimShape::Sphere);
    assert_eq!(PrimShape::from_str("CYLINDER"), PrimShape::Cylinder);
    assert_eq!(PrimShape::from_str("cone"), PrimShape::Cone);
    assert_eq!(PrimShape::from_str("Torus"), PrimShape::Torus);
    assert_eq!(PrimShape::from_str("box"), PrimShape::Box);
    // Unknown names fall back to a box.
    assert_eq!(PrimShape::from_str("dodecahedron"), PrimShape::Box);
    assert_eq!(PrimShape::from_str(""), PrimShape::Box);
}

#[test]
fn anchoring_computes_the_tile_once() {
    let p = GeoPoint { lng_udeg: 6_566_500, merc_y: 1394732983 };
    let a = RegionAnchor::anchor(9, p);
    assert_eq!(a.region_id, 9);
    assert_eq!(a.position, p);
    assert_eq!(a.tile, TileKey { x: 67926, y: 42563, z: 17 });
}

#[test]
fn decoded_tiles_sample_bilinearly() {
    let s = tileworld::tile::TileSampling::bilinear();
    assert_eq!(s.min_filter, FilterMode::Linear);
    assert_eq!(s.mag_filter, FilterMode::Linear);
    assert_eq!(s.mipmap_filter, FilterMode::Linear);
}
