//! The shape-type tags of the format.

use vstd::prelude::*;
use crate::error::Error;

verus! {

#[derive(Debug, Clone, Copy, PartialEq, Eq, Structural)]
pub enum ShapeType {
    NullShape,
    Point,
    Polyline,
    Polygon,
    Multipoint,
    PointZ,
    PolylineZ,
    PolygonZ,
    MultipointZ,
    PointM,
    PolylineM,
    PolygonM,
    MultipointM,
}

/// The wire value of a tag.
pub open spec fn tag_value(t: ShapeType) -> i32 {
    match t {
        ShapeType::NullShape => 0,
        ShapeType::Point => 1,
        ShapeType::Polyline => 3,
        ShapeType::Polygon => 5,
        ShapeType::Multipoint => 8,
        ShapeType::PointZ => 11,
        ShapeType::PolylineZ => 13,
        ShapeType::PolygonZ => 15,
        ShapeType::MultipointZ => 18,
        ShapeType::PointM => 21,
        ShapeType::PolylineM => 23,
        ShapeType::PolygonM => 25,
        ShapeType::MultipointM => 28,
    }
}

/// The tag whose wire value is `v`, if any.
pub open spec fn tag_from_value(v: i32) -> Option<ShapeType> {
    match v {
        0 => Some(ShapeType::NullShape),
        1 => Some(ShapeType::Point),
        3 => Some(ShapeType::Polyline),
        5 => Some(ShapeType::Polygon),
        8 => Some(ShapeType::Multipoint),
        11 => Some(ShapeType::PointZ),
        13 => Some(ShapeType::PolylineZ),
        15 => Some(ShapeType::PolygonZ),
        18 => Some(ShapeType::MultipointZ),
        21 => Some(ShapeType::PointM),
        23 => Some(ShapeType::PolylineM),
        25 => Some(ShapeType::PolygonM),
        28 => Some(ShapeType::MultipointM),
        _ => None,
    }
}

pub open spec fn spec_has_z(t: ShapeType) -> bool {
    matches!(t, ShapeType::PointZ | ShapeType::PolylineZ | ShapeType::PolygonZ | ShapeType::MultipointZ)
}

pub open spec fn spec_has_m(t: ShapeType) -> bool {
    matches!(t, ShapeType::PointM | ShapeType::PolylineM | ShapeType::PolygonM | ShapeType::MultipointM)
        || spec_has_z(t)
}

pub open spec fn spec_is_multipart(t: ShapeType) -> bool {
    matches!(t, ShapeType::Polyline | ShapeType::Polygon | ShapeType::PolylineZ
        | ShapeType::PolygonZ | ShapeType::PolylineM | ShapeType::PolygonM)
}

pub open spec fn spec_is_multipoint(t: ShapeType) -> bool {
    matches!(t, ShapeType::Multipoint | ShapeType::MultipointZ | ShapeType::MultipointM)
}

/// Distinct tags have distinct wire values.
pub proof fn lemma_tag_value_injective(a: ShapeType, b: ShapeType)
    ensures
        tag_value(a) == tag_value(b) <==> a == b,
{
}

/// A tag's wire value decodes to the tag itself.
pub proof fn lemma_tag_round_trip(t: ShapeType)
    ensures
        tag_from_value(tag_value(t)) == Some(t),
{
}

/// Exactly the wire values of the tags decode to a tag.
pub proof fn lemma_tag_values_decode(v: i32)
    ensures
        tag_from_value(v) is Some <==> exists|t: ShapeType| tag_value(t) == v,
{
    if let Some(t) = tag_from_value(v) {
        assert(tag_value(t) == v);
    }
}

impl ShapeType {
    /// The tag with wire value `v`; `InvalidShapeType(v)` for any other value.
    pub fn from_i32(v: i32) -> (r: Result<ShapeType, Error>)
        ensures
            match tag_from_value(v) {
                Some(t) => r == Ok::<ShapeType, Error>(t),
                None => r == Err::<ShapeType, Error>(Error::InvalidShapeType(v)),
            },
    {
        let r = match v {
            0 => Ok(ShapeType::NullShape),
            1 => Ok(ShapeType::Point),
            3 => Ok(ShapeType::Polyline),
            5 => Ok(ShapeType::Polygon),
            8 => Ok(ShapeType::Multipoint),
            11 => Ok(ShapeType::PointZ),
            13 => Ok(ShapeType::PolylineZ),
            15 => Ok(ShapeType::PolygonZ),
            18 => Ok(ShapeType::MultipointZ),
            21 => Ok(ShapeType::PointM),
            23 => Ok(ShapeType::PolylineM),
            25 => Ok(ShapeType::PolygonM),
            28 => Ok(ShapeType::MultipointM),
            _ => Err(Error::InvalidShapeType(v)),
        };
        r
    }

    /// The wire value of the tag.
    pub fn to_i32(self) -> (r: i32)
        ensures
            r == tag_value(self),
    {
        match self {
            ShapeType::NullShape => 0,
            ShapeType::Point => 1,
            ShapeType::Polyline => 3,
            ShapeType::Polygon => 5,
            ShapeType::Multipoint => 8,
            ShapeType::PointZ => 11,
            ShapeType::PolylineZ => 13,
            ShapeType::PolygonZ => 15,
            ShapeType::MultipointZ => 18,
            ShapeType::PointM => 21,
            ShapeType::PolylineM => 23,
            ShapeType::PolygonM => 25,
            ShapeType::MultipointM => 28,
        }
    }

    /// Whether shapes of this type carry a z coordinate.
    pub fn has_z(self) -> (r: bool)
        ensures
            r == spec_has_z(self),
    {
        matches!(self, ShapeType::PointZ | ShapeType::PolylineZ | ShapeType::PolygonZ | ShapeType::MultipointZ)
    }

    /// Whether shapes of this type carry a measure (z shapes do too).
    pub fn has_m(self) -> (r: bool)
        ensures
            r == spec_has_m(self),
    {
        matches!(self, ShapeType::PointM | ShapeType::PolylineM | ShapeType::PolygonM | ShapeType::MultipointM)
            || self.has_z()
    }

    /// Whether shapes of this type are made of parts.
    pub fn is_multipart(self) -> (r: bool)
        ensures
            r == spec_is_multipart(self),
    {
        matches!(self, ShapeType::Polyline | ShapeType::Polygon | ShapeType::PolylineZ
            | ShapeType::PolygonZ | ShapeType::PolylineM | ShapeType::PolygonM)
    }

    /// Whether shapes of this type are a flat set of points.
    pub fn is_multipoint(self) -> (r: bool)
        ensures
            r == spec_is_multipoint(self),
    {
        matches!(self, ShapeType::Multipoint | ShapeType::MultipointZ | ShapeType::MultipointM)
    }
}

} // verus!
