//! Tile cache: dedup, idempotence after load, retry after failure,
//! and the decode step on real image bytes.

use tileworld::cache::{RequestOutcome, TileCache};
use tileworld::fetch::decode_tile;
use tileworld::tile::{DecodedTile, FetchError, TileKey, TileSampling};

fn addr() -> TileKey {
    TileKey::new(67926, 42563, 17)
}

fn small_tile() -> DecodedTile {
    DecodedTile {
        width: 1,
        height: 1,
        pixels: vec![10, 20, 30, 255],
        sampling: TileSampling::bilinear(),
    }
}

/// A 2x2 PNG with a known solid color, encoded through the image crate.
fn png_bytes() -> Vec<u8> {
    let img = image::RgbaImage::from_pixel(2, 2, image::Rgba([9, 8, 7, 255]));
    let mut buf: Vec<u8> = Vec::new();
    let mut cursor = std::io::Cursor::new(&mut buf);
    image::DynamicImage::ImageRgba8(img)
        .write_to(&mut cursor, image::ImageFormat::Png)
        .expect("encoding a PNG in memory cannot fail");
    buf
}

#[test]
fn request_dedup_started_once_then_joined() {
    let mut cache = TileCache::default();
    let a = addr();
    assert_eq!(cache.request(&a), RequestOutcome::Started);
    assert_eq!(cache.request(&a), RequestOutcome::Joined);
    assert_eq!(cache.request(&a), RequestOutcome::Joined);
    assert_eq!(cache.request(&a), RequestOutcome::Joined);
}

#[test]
fn distinct_addresses_do_not_join() {
    let mut cache = TileCache::default();
    assert_eq!(cache.request(&TileKey::new(1, 2, 3)), RequestOutcome::Started);
    assert_eq!(cache.request(&TileKey::new(2, 1, 3)), RequestOutcome::Started);
    assert_eq!(cache.request(&TileKey::new(1, 2, 4)), RequestOutcome::Started);
    assert_eq!(cache.request(&TileKey::new(1, 2, 3)), RequestOutcome::Joined);
}

#[test]
fn request_idempotent_after_load() {
    let mut cache = TileCache::default();
    let a = addr();
    assert_eq!(cache.request(&a), RequestOutcome::Started);
    cache.finish_success(&a, small_tile());
    for _ in 0..5 {
        assert_eq!(cache.request(&a), RequestOutcome::AlreadyLoaded);
        let t = cache.get(&a).expect("loaded tile must stay available");
        assert_eq!(t.width, 1);
        assert_eq!(t.height, 1);
        assert_eq!(t.pixels, vec![10, 20, 30, 255]);
    }
}

#[test]
fn failed_fetch_leaves_no_entry_and_allows_retry() {
    let mut cache = TileCache::default();
    let a = addr();
    assert_eq!(cache.request(&a), RequestOutcome::Started);
    let r = cache.complete_fetch(&a, Err(FetchError::Network));
    assert_eq!(r, Err(FetchError::Network));
    assert!(cache.get(&a).is_none());
    // Neither loaded nor pending: a fresh request starts a new fetch.
    assert_eq!(cache.request(&a), RequestOutcome::Started);
}

#[test]
fn undecodable_bytes_fail_and_allow_retry() {
    let mut cache = TileCache::default();
    let a = addr();
    assert_eq!(cache.request(&a), RequestOutcome::Started);
    let r = cache.complete_fetch(&a, Ok(vec![1, 2, 3, 4, 5]));
    assert_eq!(r, Err(FetchError::Decode));
    assert!(cache.get(&a).is_none());
    assert_eq!(cache.request(&a), RequestOutcome::Started);
}

#[test]
fn successful_fetch_serves_all_later_requesters() {
    let mut cache = TileCache::default();
    let a = addr();
    assert_eq!(cache.request(&a), RequestOutcome::Started);
    let r = cache.complete_fetch(&a, Ok(png_bytes()));
    assert_eq!(r, Ok(()));
    assert_eq!(cache.request(&a), RequestOutcome::AlreadyLoaded);
    let t = cache.get(&a).expect("decoded tile must be cached");
    assert_eq!(t.width, 2);
    assert_eq!(t.height, 2);
    assert_eq!(t.pixels, vec![9, 8, 7, 255, 9, 8, 7, 255, 9, 8, 7, 255, 9, 8, 7, 255]);
}

#[test]
fn decode_tile_decodes_real_pixels() {
    // Would fail if the decoder handed its input back unchanged.
    let bytes = png_bytes();
    let tile = decode_tile(&bytes).expect("valid PNG must decode");
    assert_eq!(tile.width, 2);
    assert_eq!(tile.height, 2);
    assert_eq!(tile.pixels.len(), 16);
    assert_ne!(tile.pixels, bytes);
    assert_eq!(&tile.pixels[0..4], &[9, 8, 7, 255]);
}

#[test]
fn decode_tile_keeps_width_and_height_apart() {
    // A non-square image: a swap of the two dimensions would show here.
    let img = image::RgbaImage::from_pixel(3, 1, image::Rgba([1, 1, 1, 255]));
    let mut buf: Vec<u8> = Vec::new();
    let mut cursor = std::io::Cursor::new(&mut buf);
    image::DynamicImage::ImageRgba8(img)
        .write_to(&mut cursor, image::ImageFormat::Png)
        .expect("encoding a PNG in memory cannot fail");
    let tile = decode_tile(&buf).expect("valid PNG must decode");
    assert_eq!(tile.width, 3);
    assert_eq!(tile.height, 1);
    assert_eq!(tile.pixels.len(), 12);
}

#[test]
fn decode_tile_rejects_garbage() {
    assert_eq!(decode_tile(&[0u8; 16]), Err(FetchError::Decode));
    assert_eq!(decode_tile(&[]), Err(FetchError::Decode));
}
