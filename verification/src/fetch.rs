//! Tile retrieval support: the deterministic tile-server URL and the
//! decode step that turns fetched bytes into an RGBA8 tile.
//!
//! The network retrieval itself is I/O and lives outside the library;
//! callers hand the fetched bytes (or their failure) to
//! [`crate::cache::TileCache::complete_fetch`].

use vstd::prelude::*;
use crate::tile::DecodedTile;
use crate::tile::FetchError;
use crate::tile::TileKey;
use crate::tile::TileSampling;

verus! {

/// The decimal digit character for `d` in `[0, 9]`.
pub open spec fn spec_digit(d: int) -> char {
    if d == 0 {
        '0'
    } else if d == 1 {
        '1'
    } else if d == 2 {
        '2'
    } else if d == 3 {
        '3'
    } else if d == 4 {
        '4'
    } else if d == 5 {
        '5'
    } else if d == 6 {
        '6'
    } else if d == 7 {
        '7'
    } else if d == 8 {
        '8'
    } else {
        '9'
    }
}

/// Decimal digits of a nonnegative integer, most significant first.
pub open spec fn spec_udec(n: int) -> Seq<char>
    decreases n,
{
    if n < 10 {
        seq![spec_digit(n)]
    } else {
        spec_udec(n / 10) + seq![spec_digit(n % 10)]
    }
}

/// The path form `"z/x/y"` of a tile address.
pub open spec fn spec_tile_path(k: TileKey) -> Seq<char> {
    spec_udec(k.z as int) + seq!['/'] + spec_udec(k.x as int) + seq!['/'] + spec_udec(k.y as int)
}

/// The tile-server URL for a tile address, deterministic in `(z, x, y)`.
pub open spec fn spec_tile_url(x: int, y: int, z: int) -> Seq<char> {
    "https://tile.openstreetmap.org/"@ + spec_udec(z) + seq!['/'] + spec_udec(x) + seq!['/']
        + spec_udec(y) + seq!['.', 'p', 'n', 'g']
}

impl TileKey {
    /// Renders the address as `"z/x/y"`, for diagnostics and logs.
    ///
    /// Relies on `core::fmt`'s `Display` for unsigned integers: `"{}"`
    /// renders the value in base 10 with no sign or padding.
    #[verifier::external_body]
    pub fn to_string(&self) -> (s: String)
        ensures
            s@ == spec_tile_path(*self),
    {
        format!("{}/{}/{}", self.z, self.x, self.y)
    }
}

/// The tile-server URL for the tile at `(x, y)` and zoom `z`.
///
/// Relies on `core::fmt`'s `Display` for unsigned integers: `"{}"`
/// renders the value in base 10 with no sign or padding.
#[verifier::external_body]
pub fn get_osm_tile_url(x: u32, y: u32, z: u32) -> (s: String)
    ensures
        s@ == spec_tile_url(x as int, y as int, z as int),
{
    format!("https://tile.openstreetmap.org/{}/{}/{}.png", z, x, y)
}

/// What the image decoder yields on a byte buffer: the `(width, height,
/// RGBA8 bytes)` form of the image the bytes encode, or `None` when they
/// encode no image. A function of the bytes alone.
pub uninterp spec fn spec_decoded_rgba(bytes: Seq<u8>) -> Option<(int, int, Seq<u8>)>;

/// Relies on `image::load_from_memory` (decode with guessed format) and
/// `DynamicImage::to_rgba8`: decoding is a pure function of the bytes,
/// and the raw RGBA8 buffer holds exactly `width * height * 4` bytes.
#[verifier::external_body]
fn decode_rgba(bytes: &[u8]) -> (r: Option<(u32, u32, Vec<u8>)>)
    ensures
        match (spec_decoded_rgba(bytes@), r) {
            (Some(img), Some(t)) => {
                &&& t.0 == img.0
                &&& t.1 == img.1
                &&& t.2@ == img.2
                &&& img.2.len() == 4 * img.0 * img.1
            },
            (None, None) => true,
            _ => false,
        },
{
    match image::load_from_memory(bytes) {
        Ok(img) => {
            let rgba = img.to_rgba8();
            let width = rgba.width();
            let height = rgba.height();
            Some((width, height, rgba.into_raw()))
        },
        Err(_) => None,
    }
}

/// Decode fetched bytes into a tile: the decoded RGBA8 image carrying
/// the fixed bilinear sampling configuration, or `FetchError::Decode`
/// exactly when the bytes encode no image.
pub fn decode_tile(bytes: &[u8]) -> (r: Result<DecodedTile, FetchError>)
    ensures
        match spec_decoded_rgba(bytes@) {
            Some(img) => {
                &&& r is Ok
                &&& r->Ok_0.width == img.0
                &&& r->Ok_0.height == img.1
                &&& r->Ok_0.pixels@ == img.2
                &&& r->Ok_0.sampling.is_bilinear()
                &&& r->Ok_0.wf()
            },
            None => r is Err && r->Err_0 == FetchError::Decode,
        },
{
    match decode_rgba(bytes) {
        Some((width, height, pixels)) => Ok(
            DecodedTile { width, height, pixels, sampling: TileSampling::bilinear() },
        ),
        None => Err(FetchError::Decode),
    }
}

} // verus!
