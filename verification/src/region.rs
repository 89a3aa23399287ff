//! Region anchoring and prim shape parsing.

use vstd::prelude::*;
use crate::projection::GeoPoint;
use crate::projection::REGION_ZOOM_LEVEL;
use crate::projection::spec_lng_to_tile_x;
use crate::projection::spec_merc_to_tile_y;
use crate::tile::TileKey;
use crate::tile::calculate_tile_coordinates;

verus! {

/// Shape of a placeable prim, parsed from its stored shape name.
#[derive(Clone, Copy, Debug, PartialEq, Eq, Structural)]
pub enum PrimShape {
    Box,
    Sphere,
    Cylinder,
    Cone,
    Torus,
}

/// What `str::to_lowercase` returns: a function of the characters alone.
pub uninterp spec fn spec_lowercase(s: Seq<char>) -> Seq<char>;

/// Relies on `str::to_lowercase`: Unicode lowercasing, determined by
/// the input characters alone.
#[verifier::external_body]
fn to_lowercase(s: &str) -> (r: String)
    ensures
        r@ == spec_lowercase(s@),
{
    s.to_lowercase()
}

/// The shape a lowercased name denotes; unknown names mean a box.
pub open spec fn spec_shape_of(s: Seq<char>) -> PrimShape {
    if s == "sphere"@ {
        PrimShape::Sphere
    } else if s == "cylinder"@ {
        PrimShape::Cylinder
    } else if s == "cone"@ {
        PrimShape::Cone
    } else if s == "torus"@ {
        PrimShape::Torus
    } else {
        PrimShape::Box
    }
}

impl PrimShape {
    /// Parse a stored shape name, case-insensitively; unknown names
    /// fall back to a box.
    pub fn from_str(s: &str) -> (shape: PrimShape)
        ensures
            shape == spec_shape_of(spec_lowercase(s@)),
    {
        let low = to_lowercase(s);
        if low == "sphere".to_owned() {
            PrimShape::Sphere
        } else if low == "cylinder".to_owned() {
            PrimShape::Cylinder
        } else if low == "cone".to_owned() {
            PrimShape::Cone
        } else if low == "torus".to_owned() {
            PrimShape::Torus
        } else {
            PrimShape::Box
        }
    }
}

/// A region's identity, its geographic anchor, and the tile address
/// computed from that anchor exactly once, at creation time, at the
/// fixed region zoom level. Read-only to everything but an explicit
/// re-anchoring, which goes through [`RegionAnchor::anchor`] again.
#[derive(Clone, Copy, Debug, PartialEq, Eq, Structural)]
pub struct RegionAnchor {
    pub region_id: i64,
    pub position: GeoPoint,
    pub tile: TileKey,
}

impl RegionAnchor {
    /// The carried tile address is exactly the projection of the anchor
    /// position at the region zoom level.
    pub open spec fn wf(&self) -> bool {
        &&& self.position.wf()
        &&& self.tile.valid()
        &&& self.tile.z == REGION_ZOOM_LEVEL
        &&& self.tile.x == spec_lng_to_tile_x(
            self.position.lng_udeg as int,
            REGION_ZOOM_LEVEL as nat,
        )
        &&& self.tile.y == spec_merc_to_tile_y(
            self.position.merc_y as int,
            REGION_ZOOM_LEVEL as nat,
        )
    }

    /// Anchor a region: compute its tile address from its position.
    pub fn anchor(region_id: i64, position: GeoPoint) -> (a: RegionAnchor)
        requires
            position.wf(),
        ensures
            a.region_id == region_id,
            a.position == position,
            a.wf(),
    {
        RegionAnchor { region_id, position, tile: calculate_tile_coordinates(position) }
    }
}

} // verus!
