//! Tile addresses and decoded tile buffers.

use vstd::prelude::*;
use vstd::arithmetic::div_mod::*;
use vstd::arithmetic::power2::*;
use crate::projection::GeoPoint;
use crate::projection::MAX_ZOOM;
use crate::projection::REGION_ZOOM_LEVEL;
use crate::projection::lng_to_tile_x;
use crate::projection::merc_to_tile_y;
use crate::projection::pow2_u64;
use crate::projection::spec_lng_to_tile_x;
use crate::projection::spec_merc_to_tile_y;

verus! {

/// Address of one raster tile under the Web Mercator tiling scheme:
/// column `x`, row `y`, zoom level `z`. The cache keys fetches by it.
#[derive(Clone, Copy, Debug, Hash, PartialEq, Eq, Structural)]
pub struct TileKey {
    pub x: u32,
    pub y: u32,
    pub z: u32,
}

impl TileKey {
    /// The address lies on the grid: `z <= MAX_ZOOM` and `x, y < 2^z`.
    pub open spec fn valid(&self) -> bool {
        &&& self.z <= MAX_ZOOM
        &&& self.x < pow2(self.z as nat)
        &&& self.y < pow2(self.z as nat)
    }

    /// The address packed into one integer, `(z, x, y)` in disjoint
    /// fields; equal on two addresses exactly when they are equal, and
    /// ordered as the tuple `(z, x, y)` orders them.
    pub open spec fn spec_cache_key(&self) -> int {
        self.z * 0x100_0000_0000 + self.x * 0x10_0000 + self.y
    }

    /// Construct an address known to lie on the grid.
    pub fn new(x: u32, y: u32, z: u32) -> (k: TileKey)
        requires
            z <= MAX_ZOOM,
            x < pow2(z as nat),
            y < pow2(z as nat),
        ensures
            k == (TileKey { x, y, z }),
            k.valid(),
    {
        TileKey { x, y, z }
    }

    /// Validate unchecked input (a persisted row, a request parameter)
    /// into an address: `Some` exactly when `0 <= x, y < 2^z` and
    /// `0 <= z <= MAX_ZOOM`.
    pub fn try_new(x: i64, y: i64, z: i64) -> (k: Option<TileKey>)
        ensures
            match k {
                Some(t) => {
                    &&& 0 <= z <= MAX_ZOOM
                    &&& 0 <= x < pow2(z as nat)
                    &&& 0 <= y < pow2(z as nat)
                    &&& t == (TileKey { x: x as u32, y: y as u32, z: z as u32 })
                    &&& t.valid()
                },
                None => !(0 <= z <= MAX_ZOOM && 0 <= x < pow2(z as nat) && 0 <= y < pow2(
                    z as nat,
                )),
            },
    {
        if z < 0 || z > MAX_ZOOM as i64 {
            return None;
        }
        let p = pow2_u64(z as u32);
        proof {
            lemma2_to64();
            if (z as nat) < 19 {
                lemma_pow2_strictly_increases(z as nat, 19);
            }
        }
        if 0 <= x && x < p as i64 && 0 <= y && y < p as i64 {
            Some(TileKey { x: x as u32, y: y as u32, z: z as u32 })
        } else {
            None
        }
    }

    /// The packed integer form of the address, used as the cache key.
    pub fn cache_key(&self) -> (k: u64)
        requires
            self.valid(),
        ensures
            k == self.spec_cache_key(),
    {
        proof {
            lemma2_to64();
            if (self.z as nat) < 19 {
                lemma_pow2_strictly_increases(self.z as nat, 19);
            }
        }
        (self.z as u64) * 0x100_0000_0000 + (self.x as u64) * 0x10_0000 + (self.y as u64)
    }
}

/// Two valid addresses with the same cache key are the same address:
/// keying the cache by the packed integer loses nothing.
pub proof fn lemma_cache_key_injective(a: TileKey, b: TileKey)
    requires
        a.valid(),
        b.valid(),
        a.spec_cache_key() == b.spec_cache_key(),
    ensures
        a == b,
{
    lemma2_to64();
    if (a.z as nat) < 19 {
        lemma_pow2_strictly_increases(a.z as nat, 19);
    }
    if (b.z as nat) < 19 {
        lemma_pow2_strictly_increases(b.z as nat, 19);
    }
    let ta = a.x * 0x10_0000 + a.y;
    let tb = b.x * 0x10_0000 + b.y;
    assert(0 <= ta < 0x100_0000_0000);
    assert(0 <= tb < 0x100_0000_0000);
    let k = a.spec_cache_key();
    lemma_fundamental_div_mod_converse_div(k, 0x100_0000_0000, a.z as int, ta);
    lemma_fundamental_div_mod_converse_div(k, 0x100_0000_0000, b.z as int, tb);
    lemma_fundamental_div_mod_converse_mod(k, 0x100_0000_0000, a.z as int, ta);
    lemma_fundamental_div_mod_converse_mod(k, 0x100_0000_0000, b.z as int, tb);
    assert(a.z == b.z && ta == tb);
    lemma_fundamental_div_mod_converse_div(ta, 0x10_0000, a.x as int, a.y as int);
    lemma_fundamental_div_mod_converse_div(tb, 0x10_0000, b.x as int, b.y as int);
    lemma_fundamental_div_mod_converse_mod(ta, 0x10_0000, a.x as int, a.y as int);
    lemma_fundamental_div_mod_converse_mod(tb, 0x10_0000, b.x as int, b.y as int);
}

/// The packed cache key orders addresses exactly as the tuple
/// `(z, x, y)` does, so iterating the cache in key order is the
/// deterministic address order.
pub proof fn lemma_cache_key_orders_addresses(a: TileKey, b: TileKey)
    requires
        a.valid(),
        b.valid(),
    ensures
        a.spec_cache_key() < b.spec_cache_key() <==> (a.z < b.z || (a.z == b.z && a.x < b.x) || (
        a.z == b.z && a.x == b.x && a.y < b.y)),
{
    lemma2_to64();
    if (a.z as nat) < 19 {
        lemma_pow2_strictly_increases(a.z as nat, 19);
    }
    if (b.z as nat) < 19 {
        lemma_pow2_strictly_increases(b.z as nat, 19);
    }
    if a.z == b.z && a.x == b.x && a.y == b.y {
        lemma_cache_key_injective(a, b);
    }
}

/// Filtering mode for sampling a tile texture.
#[derive(Clone, Copy, Debug, PartialEq, Eq, Structural)]
pub enum FilterMode {
    Nearest,
    Linear,
}

/// Sampler configuration applied when a decoded tile is bound as a
/// texture: minification, magnification and mipmap filters.
#[derive(Clone, Copy, Debug, PartialEq, Eq, Structural)]
pub struct TileSampling {
    pub min_filter: FilterMode,
    pub mag_filter: FilterMode,
    pub mipmap_filter: FilterMode,
}

impl TileSampling {
    /// All three filters sample bilinearly.
    pub open spec fn is_bilinear(&self) -> bool {
        &&& self.min_filter == FilterMode::Linear
        &&& self.mag_filter == FilterMode::Linear
        &&& self.mipmap_filter == FilterMode::Linear
    }

    /// The configuration every decoded tile carries.
    pub fn bilinear() -> (s: TileSampling)
        ensures
            s.is_bilinear(),
    {
        TileSampling {
            min_filter: FilterMode::Linear,
            mag_filter: FilterMode::Linear,
            mipmap_filter: FilterMode::Linear,
        }
    }
}

/// An owned, decoded tile image: RGBA8 pixels, row-major, plus the
/// sampling configuration to apply when binding it as a texture.
/// Immutable once produced; shared by every requester of its address.
#[derive(Clone, Debug, PartialEq, Eq)]
pub struct DecodedTile {
    pub width: u32,
    pub height: u32,
    pub pixels: Vec<u8>,
    pub sampling: TileSampling,
}

impl DecodedTile {
    /// The buffer holds exactly four bytes per pixel.
    pub open spec fn wf(&self) -> bool {
        self.pixels@.len() == 4 * self.width * self.height
    }
}

/// Why fetching a tile failed. Both cases are recoverable: the address
/// stays absent from the cache and a later request may retry it.
#[derive(Clone, Copy, Debug, PartialEq, Eq, Structural)]
pub enum FetchError {
    /// Transport failure, timeout, or a non-success HTTP status.
    Network,
    /// Bytes were retrieved but are not a decodable image.
    Decode,
}

/// The tile address a region is anchored to, computed from its
/// geographic position at the fixed region zoom level.
pub fn calculate_tile_coordinates(p: GeoPoint) -> (k: TileKey)
    requires
        p.wf(),
    ensures
        k.z == REGION_ZOOM_LEVEL,
        k.x == spec_lng_to_tile_x(p.lng_udeg as int, REGION_ZOOM_LEVEL as nat),
        k.y == spec_merc_to_tile_y(p.merc_y as int, REGION_ZOOM_LEVEL as nat),
        k.valid(),
{
    let x = lng_to_tile_x(p.lng_udeg, REGION_ZOOM_LEVEL);
    let y = merc_to_tile_y(p.merc_y, REGION_ZOOM_LEVEL);
    TileKey { x, y, z: REGION_ZOOM_LEVEL }
}

} // verus!
