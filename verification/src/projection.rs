//! Web Mercator tile math over exact integers.
//!
//! Longitude is carried in microdegrees and the Mercator-projected
//! latitude as a binary fraction of the world height scaled by `2^32`;
//! both pin the floating-point formulas `x = floor((lng+180)/360 * 2^zoom)`
//! and `y = floor(merc(lat) * 2^zoom)` down to exact integer arithmetic.
//! The transcendental leg (latitude to Mercator fraction, cosine of the
//! latitude) cannot be computed here and is supplied by the caller.

use vstd::prelude::*;
use vstd::arithmetic::div_mod::*;
use vstd::arithmetic::mul::*;
use vstd::arithmetic::power2::*;

verus! {

/// Highest tile zoom level considered anywhere in the system.
pub const MAX_ZOOM: u32 = 19;

/// Zoom level at which every region is anchored.
pub const REGION_ZOOM_LEVEL: u32 = 17;

/// Nominal extent of a region, in millimeters (256 m).
pub const REGION_SIZE_MILLIMETERS: u64 = 256_000;

/// Earth circumference at the equator, in millimeters.
pub const EARTH_CIRCUMFERENCE_MM: u64 = 40_075_016_686;

/// Scale of the Mercator fraction: the world height is `2^32` units.
pub const MERC_SCALE: u64 = 0x1_0000_0000;

/// A geographic position, in the exact form the projection consumes:
/// longitude in microdegrees and the Mercator-projected latitude as a
/// fraction of the world height in units of `2^-32`.
#[derive(Clone, Copy, Debug, PartialEq, Eq, Structural)]
pub struct GeoPoint {
    /// Longitude in microdegrees, in `[-180_000_000, 180_000_000)`.
    pub lng_udeg: i64,
    /// Mercator latitude fraction scaled by `2^32`, in `[0, 2^32)`.
    pub merc_y: u64,
}

impl GeoPoint {
    /// Both coordinates lie on the Mercator world square.
    pub open spec fn wf(&self) -> bool {
        &&& -180_000_000 <= self.lng_udeg < 180_000_000
        &&& self.merc_y < MERC_SCALE
    }
}

/// `2^e` as executable arithmetic.
pub fn pow2_u64(e: u32) -> (r: u64)
    requires
        e <= 63,
    ensures
        r == pow2(e as nat),
{
    let mut r: u64 = 1;
    let mut i: u32 = 0;
    proof {
        lemma2_to64();
        lemma2_to64_rest();
    }
    while i < e
        invariant
            i <= e <= 63,
            r == pow2(i as nat),
        decreases e - i,
    {
        proof {
            lemma_pow2_strictly_increases(i as nat, 63);
            lemma2_to64_rest();
            lemma_pow2_unfold((i + 1) as nat);
        }
        r = r * 2;
        i = i + 1;
    }
    r
}

/// The tile column holding a given longitude:
/// `floor((lng + 180 deg) / 360 deg * 2^zoom)` in microdegrees.
pub open spec fn spec_lng_to_tile_x(lng_udeg: int, zoom: nat) -> int {
    ((lng_udeg + 180_000_000) * pow2(zoom)) / 360_000_000
}

/// The westernmost whole microdegree inside tile column `x`: the exact
/// corner `x / 2^zoom * 360 deg - 180 deg` rounded up to the next
/// microdegree, so the returned longitude lies within the tile.
pub open spec fn spec_tile_x_to_lng(x: int, zoom: nat) -> int {
    (x * 360_000_000 + (pow2(zoom) - 1)) / (pow2(zoom) as int) - 180_000_000
}

/// The tile row holding a given Mercator fraction: `floor(m / 2^(32-zoom))`.
pub open spec fn spec_merc_to_tile_y(merc_y: int, zoom: nat) -> int {
    merc_y / (pow2((32 - zoom) as nat) as int)
}

/// The exact Mercator fraction of the top edge of tile row `y`.
pub open spec fn spec_tile_y_to_merc(y: int, zoom: nat) -> int {
    y * pow2((32 - zoom) as nat)
}

/// Convert a longitude to its tile column at the given zoom.
pub fn lng_to_tile_x(lng_udeg: i64, zoom: u32) -> (x: u32)
    requires
        -180_000_000 <= lng_udeg < 180_000_000,
        zoom <= MAX_ZOOM,
    ensures
        x == spec_lng_to_tile_x(lng_udeg as int, zoom as nat),
        x < pow2(zoom as nat),
{
    proof {
        lemma2_to64();
        if (zoom as nat) < 19 {
            lemma_pow2_strictly_increases(zoom as nat, 19);
        }
    }
    let p = pow2_u64(zoom);
    let shifted: u64 = (lng_udeg + 180_000_000) as u64;
    proof {
        lemma_mul_upper_bound(shifted as int, 359_999_999, p as int, 0x80000);
        lemma_mul_strict_inequality(shifted as int, 360_000_000, p as int);
        lemma_mul_is_commutative(360_000_000, p as int);
        lemma_multiply_divide_lt((shifted * p) as int, 360_000_000, p as int);
    }
    let num: u64 = shifted * p;
    let q: u64 = num / 360_000_000;
    q as u32
}

/// Convert a tile column back to the westernmost longitude inside it.
pub fn tile_x_to_lng(x: u32, zoom: u32) -> (lng_udeg: i64)
    requires
        zoom <= MAX_ZOOM,
        x < pow2(zoom as nat),
    ensures
        lng_udeg == spec_tile_x_to_lng(x as int, zoom as nat),
        -180_000_000 <= lng_udeg < 180_000_000,
{
    proof {
        lemma2_to64();
        if (zoom as nat) < 19 {
            lemma_pow2_strictly_increases(zoom as nat, 19);
        }
    }
    let p = pow2_u64(zoom);
    proof {
        lemma_pow2_pos(zoom as nat);
        lemma_mul_upper_bound(x as int, 0x80000, 360_000_000, 360_000_000);
        // numerator < 360_000_000 * p, so the quotient stays below 360_000_000
        lemma_mul_strict_inequality(x as int, 360_000_000, p as int);
        lemma_mul_is_commutative(360_000_000, p as int);
        assert((x as int) * 360_000_000 + (p - 1) < 360_000_000 * (p as int)) by {
            assert((x as int) * 360_000_000 <= ((p as int) - 1) * 360_000_000) by {
                lemma_mul_inequality(x as int, (p as int) - 1, 360_000_000);
            }
            assert(((p as int) - 1) * 360_000_000 == (p as int) * 360_000_000 - 360_000_000) by {
                lemma_mul_is_distributive_sub_other_way(360_000_000, p as int, 1);
            }
        }
        lemma_mul_is_commutative(p as int, 360_000_000);
        lemma_multiply_divide_lt(((x as u64) * 360_000_000 + (p - 1)) as int, p as int, 360_000_000);
        lemma_div_pos_is_pos(((x as u64) * 360_000_000 + (p - 1)) as int, p as int);
    }
    let num: u64 = (x as u64) * 360_000_000 + (p - 1);
    let q: u64 = num / p;
    (q as i64) - 180_000_000
}

/// Convert a Mercator fraction to its tile row at the given zoom.
pub fn merc_to_tile_y(merc_y: u64, zoom: u32) -> (y: u32)
    requires
        merc_y < MERC_SCALE,
        zoom <= MAX_ZOOM,
    ensures
        y == spec_merc_to_tile_y(merc_y as int, zoom as nat),
        y < pow2(zoom as nat),
{
    let p = pow2_u64(32 - zoom);
    proof {
        lemma_pow2_adds((32 - zoom) as nat, zoom as nat);
        lemma2_to64();
        lemma2_to64_rest();
        lemma_pow2_pos((32 - zoom) as nat);
        lemma_mul_is_commutative(p as int, pow2(zoom as nat) as int);
        lemma_multiply_divide_lt(merc_y as int, p as int, pow2(zoom as nat) as int);
        if (zoom as nat) < 19 {
            lemma_pow2_strictly_increases(zoom as nat, 19);
        }
    }
    let q: u64 = merc_y / p;
    q as u32
}

/// Convert a tile row back to the Mercator fraction of its top edge.
pub fn tile_y_to_merc(y: u32, zoom: u32) -> (merc_y: u64)
    requires
        zoom <= MAX_ZOOM,
        y < pow2(zoom as nat),
    ensures
        merc_y == spec_tile_y_to_merc(y as int, zoom as nat),
        merc_y < MERC_SCALE,
{
    let p = pow2_u64(32 - zoom);
    proof {
        lemma_pow2_adds((32 - zoom) as nat, zoom as nat);
        lemma2_to64();
        lemma2_to64_rest();
        lemma_pow2_pos((32 - zoom) as nat);
        assert((y as int) * (p as int) <= (pow2(zoom as nat) - 1) * (p as int)) by {
            lemma_mul_inequality(y as int, pow2(zoom as nat) - 1, p as int);
        }
        assert((pow2(zoom as nat) - 1) * (p as int) == pow2(zoom as nat) * (p as int) - (p as int)) by {
            lemma_mul_is_distributive_sub_other_way(p as int, pow2(zoom as nat) as int, 1);
        }
        lemma_mul_is_commutative(pow2(zoom as nat) as int, p as int);
    }
    (y as u64) * p
}

/// Project a geographic position to its tile column and row at the
/// given zoom.
pub fn lat_lng_to_tile(p: GeoPoint, zoom: u32) -> (t: (u32, u32))
    requires
        p.wf(),
        zoom <= MAX_ZOOM,
    ensures
        t.0 == spec_lng_to_tile_x(p.lng_udeg as int, zoom as nat),
        t.1 == spec_merc_to_tile_y(p.merc_y as int, zoom as nat),
        t.0 < pow2(zoom as nat),
        t.1 < pow2(zoom as nat),
{
    (lng_to_tile_x(p.lng_udeg, zoom), merc_to_tile_y(p.merc_y, zoom))
}

/// The geographic position of the top-left corner of a tile (the
/// longitude rounded up to the next whole microdegree, so the point
/// lies inside the tile).
pub fn tile_to_lat_lng(x: u32, y: u32, zoom: u32) -> (p: GeoPoint)
    requires
        zoom <= MAX_ZOOM,
        x < pow2(zoom as nat),
        y < pow2(zoom as nat),
    ensures
        p.lng_udeg == spec_tile_x_to_lng(x as int, zoom as nat),
        p.merc_y == spec_tile_y_to_merc(y as int, zoom as nat),
        p.wf(),
{
    GeoPoint { lng_udeg: tile_x_to_lng(x, zoom), merc_y: tile_y_to_merc(y, zoom) }
}

/// Projection round trip on the longitude axis: the westernmost
/// microdegree inside a tile column maps back to that same column.
pub proof fn lemma_lng_round_trip(x: int, zoom: nat)
    requires
        zoom <= MAX_ZOOM,
        0 <= x < pow2(zoom),
    ensures
        -180_000_000 <= spec_tile_x_to_lng(x, zoom) < 180_000_000,
        spec_lng_to_tile_x(spec_tile_x_to_lng(x, zoom), zoom) == x,
{
    let p = pow2(zoom) as int;
    lemma_pow2_pos(zoom);
    lemma2_to64();
    if zoom < 19 {
        lemma_pow2_strictly_increases(zoom, 19);
    }
    let num = x * 360_000_000 + (p - 1);
    lemma_fundamental_div_mod(num, p);
    let q = num / p;
    let r = num % p;
    let s = p - 1 - r;
    assert(q * p == x * 360_000_000 + s) by {
        lemma_mul_is_commutative(q, p);
    }
    assert(num < p * 360_000_000) by {
        lemma_mul_inequality(x, p - 1, 360_000_000);
        lemma_mul_is_distributive_sub_other_way(360_000_000, p, 1);
        lemma_mul_is_commutative(p, 360_000_000);
    }
    lemma_multiply_divide_lt(num, p, 360_000_000);
    lemma_div_pos_is_pos(num, p);
    assert(q * p / 360_000_000 == x) by {
        lemma_fundamental_div_mod_converse_div(q * p, 360_000_000, x, s);
    }
    assert(spec_tile_x_to_lng(x, zoom) == q - 180_000_000);
    assert(spec_lng_to_tile_x(q - 180_000_000, zoom) == q * p / 360_000_000) by {
        lemma_mul_is_commutative(q, p);
    }
}

/// Projection round trip on the Mercator axis: the top edge of a tile
/// row maps back to that same row, exactly.
pub proof fn lemma_merc_round_trip(y: int, zoom: nat)
    requires
        zoom <= MAX_ZOOM,
        0 <= y < pow2(zoom),
    ensures
        0 <= spec_tile_y_to_merc(y, zoom) < MERC_SCALE,
        spec_merc_to_tile_y(spec_tile_y_to_merc(y, zoom), zoom) == y,
{
    let p = pow2((32 - zoom) as nat) as int;
    lemma_pow2_pos((32 - zoom) as nat);
    lemma_pow2_adds((32 - zoom) as nat, zoom);
    lemma2_to64();
    lemma2_to64_rest();
    assert(y * p >= 0) by {
        lemma_mul_nonnegative(y, p);
    }
    assert(y * p <= (pow2(zoom) - 1) * p) by {
        lemma_mul_inequality(y, pow2(zoom) - 1, p);
    }
    assert((pow2(zoom) - 1) * p == pow2(zoom) * p - p) by {
        lemma_mul_is_distributive_sub_other_way(p, pow2(zoom) as int, 1);
    }
    lemma_mul_is_commutative(pow2(zoom) as int, p);
    assert((y * p) / p == y) by {
        lemma_div_multiples_vanish(y, p);
        lemma_mul_is_commutative(y, p);
    }
}

/// Projection round trip (both axes): converting any valid tile address
/// to the geographic point at its top-left corner and projecting that
/// point back yields the same tile address, for every zoom in
/// `[0, MAX_ZOOM]` and all `0 <= x, y < 2^zoom`.
pub proof fn lemma_projection_round_trip(x: int, y: int, zoom: nat)
    requires
        zoom <= MAX_ZOOM,
        0 <= x < pow2(zoom),
        0 <= y < pow2(zoom),
    ensures
        spec_lng_to_tile_x(spec_tile_x_to_lng(x, zoom), zoom) == x,
        spec_merc_to_tile_y(spec_tile_y_to_merc(y, zoom), zoom) == y,
        -180_000_000 <= spec_tile_x_to_lng(x, zoom) < 180_000_000,
        0 <= spec_tile_y_to_merc(y, zoom) < MERC_SCALE,
{
    lemma_lng_round_trip(x, zoom);
    lemma_merc_round_trip(y, zoom);
}

/// Real-world width of one tile, in millimeters:
/// `floor(circumference * cos(lat) / 2^zoom)`, with the cosine supplied
/// as a fraction scaled by `2^16`.
pub open spec fn spec_tile_millimeters(zoom: nat, cos_q16: int) -> int {
    (EARTH_CIRCUMFERENCE_MM * cos_q16) / (65536 * pow2(zoom) as int)
}

/// Absolute difference between a tile's width and a target width.
pub open spec fn spec_mm_diff(zoom: nat, cos_q16: int, target_mm: int) -> int {
    let m = spec_tile_millimeters(zoom, cos_q16);
    if m >= target_mm {
        m - target_mm
    } else {
        target_mm - m
    }
}

/// Width in millimeters of one tile at the given zoom and latitude.
/// The latitude enters as `floor(cos(lat) * 2^16)`, which any latitude
/// inside the Mercator domain makes at least 1.
pub fn tile_to_millimeters(zoom: u32, cos_lat_q16: u64) -> (mm: u64)
    requires
        zoom <= MAX_ZOOM,
        1 <= cos_lat_q16 <= 65536,
    ensures
        mm == spec_tile_millimeters(zoom as nat, cos_lat_q16 as int),
{
    proof {
        lemma2_to64();
        if (zoom as nat) < 19 {
            lemma_pow2_strictly_increases(zoom as nat, 19);
        }
        lemma_mul_inequality(cos_lat_q16 as int, 65536, EARTH_CIRCUMFERENCE_MM as int);
        lemma_mul_is_commutative(cos_lat_q16 as int, EARTH_CIRCUMFERENCE_MM as int);
        lemma_mul_is_commutative(65536, EARTH_CIRCUMFERENCE_MM as int);
    }
    let p = pow2_u64(zoom);
    let num: u64 = EARTH_CIRCUMFERENCE_MM * cos_lat_q16;
    let den: u64 = 65536 * p;
    num / den
}

/// One zoom step shrinks a tile: the width at `zoom + 1` is strictly
/// below the width at `zoom`, at any latitude inside the Mercator domain.
pub proof fn lemma_tile_millimeters_decreases(zoom: nat, cos_q16: int)
    requires
        zoom + 1 <= MAX_ZOOM,
        1 <= cos_q16 <= 65536,
    ensures
        spec_tile_millimeters(zoom + 1, cos_q16) < spec_tile_millimeters(zoom, cos_q16),
{
    let a = EARTH_CIRCUMFERENCE_MM * cos_q16;
    let d = 65536 * pow2(zoom) as int;
    lemma_pow2_pos(zoom);
    lemma2_to64();
    if zoom < 18 {
        lemma_pow2_strictly_increases(zoom, 18);
    }
    assert(a >= EARTH_CIRCUMFERENCE_MM) by {
        lemma_mul_ordering(EARTH_CIRCUMFERENCE_MM as int, cos_q16);
    }
    assert(d <= 65536 * 0x40000);
    assert(a / d >= 1) by {
        lemma_div_is_ordered(d, a, d);
        lemma_div_by_self(d);
    }
    assert(spec_tile_millimeters(zoom + 1, cos_q16) == (a / d) / 2) by {
        lemma_pow2_unfold(zoom + 1);
        assert(65536 * pow2((zoom + 1) as nat) as int == d * 2) by {
            lemma_mul_is_associative(65536, 2, pow2(zoom) as int);
            lemma_mul_is_commutative(65536, 2);
            lemma_mul_is_associative(2, 65536, pow2(zoom) as int);
            lemma_mul_is_commutative(d, 2);
        }
        lemma_div_denominator(a, d, 2);
    }
    assert((a / d) / 2 < a / d) by {
        lemma_div_decreases(a / d, 2);
    }
}

/// Zoom monotonicity: for a fixed latitude, the tile width strictly
/// decreases as the zoom level increases, over all of `[0, MAX_ZOOM]`.
pub proof fn lemma_zoom_monotonic(z1: nat, z2: nat, cos_q16: int)
    requires
        z1 < z2 <= MAX_ZOOM,
        1 <= cos_q16 <= 65536,
    ensures
        spec_tile_millimeters(z2, cos_q16) < spec_tile_millimeters(z1, cos_q16),
    decreases z2 - z1,
{
    if z1 + 1 == z2 {
        lemma_tile_millimeters_decreases(z1, cos_q16);
    } else {
        lemma_zoom_monotonic(z1 + 1, z2, cos_q16);
        lemma_tile_millimeters_decreases(z1, cos_q16);
    }
}

/// The zoom level in `[0, MAX_ZOOM]` whose tile width comes closest to
/// the target width; ties go to the lowest such zoom.
pub fn find_optimal_zoom(target_mm: u64, cos_lat_q16: u64) -> (zoom: u32)
    requires
        1 <= cos_lat_q16 <= 65536,
    ensures
        zoom <= MAX_ZOOM,
        forall|z: nat|
            z <= MAX_ZOOM ==> spec_mm_diff(zoom as nat, cos_lat_q16 as int, target_mm as int)
                <= #[trigger] spec_mm_diff(z, cos_lat_q16 as int, target_mm as int),
        forall|z: nat|
            z < zoom ==> #[trigger] spec_mm_diff(z, cos_lat_q16 as int, target_mm as int)
                > spec_mm_diff(zoom as nat, cos_lat_q16 as int, target_mm as int),
{
    let m0 = tile_to_millimeters(0, cos_lat_q16);
    let mut best: u32 = 0;
    let mut best_diff: u64 = if m0 >= target_mm {
        m0 - target_mm
    } else {
        target_mm - m0
    };
    let mut z: u32 = 1;
    while z <= MAX_ZOOM
        invariant
            1 <= z <= MAX_ZOOM + 1,
            best < z,
            1 <= cos_lat_q16 <= 65536,
            best_diff == spec_mm_diff(best as nat, cos_lat_q16 as int, target_mm as int),
            forall|j: nat|
                j < z ==> best_diff <= #[trigger] spec_mm_diff(
                    j,
                    cos_lat_q16 as int,
                    target_mm as int,
                ),
            forall|j: nat|
                j < best ==> #[trigger] spec_mm_diff(j, cos_lat_q16 as int, target_mm as int)
                    > best_diff,
        decreases MAX_ZOOM + 1 - z,
    {
        let m = tile_to_millimeters(z, cos_lat_q16);
        let d: u64 = if m >= target_mm {
            m - target_mm
        } else {
            target_mm - m
        };
        if d < best_diff {
            best = z;
            best_diff = d;
        }
        z = z + 1;
    }
    best
}

} // verus!
