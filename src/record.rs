//! Records: the framing around each shape, and the dispatch on the shape-type tag.
//!
//! A record is a big-endian record number, a big-endian content length in
//! 16-bit words, a little-endian shape-type tag, then the shape's content.

use vstd::prelude::*;
use vstd::slice::slice_subrange;
use crate::bytes::{
    be_u32, be_u32_bytes, le_u32, le_u32_bytes, le_u64s_at, le_u64s_bytes, lemma_le_u64s_read_back,
    lemma_be_u32_round_trip, lemma_i32_u32_round_trip, lemma_le_u32_round_trip, lemma_le_u64s_len,
    push_bytes, read_be_u32, read_le_u32, read_le_u64, word_at, write_be_u32, write_le_u32,
    write_le_u64s,
};
use crate::error::Error;
use crate::multipoint::{
    lemma_multipoint_m_round_trip, lemma_multipoint_round_trip, lemma_multipoint_z_round_trip,
    lemma_points_content_len, multipoint_size, points_content_bytes, spec_read_multipoint, spec_read_multipoint_m,
    spec_read_multipoint_z, spec_read_points_frame, multipoint_size_of_record, Multipoint, MultipointM, MultipointZ,
};
use crate::point::{bbox_of, BBox, Point, PointM, PointZ, NO_DATA};
use crate::poly::{
    size_of_record, spec_read_frame,
    lemma_content_layout, lemma_polygon_m_round_trip, lemma_polygon_round_trip,
    lemma_polygon_z_round_trip, lemma_polyline_m_round_trip, lemma_polyline_round_trip,
    lemma_polyline_z_round_trip, lemma_xy_words, parts_valid, polygon_valid, rings_closed, tail_m, tail_plain,
    tail_z, as_polygon, content_size, m_bytes, plain_bytes, spec_read_polyline, spec_read_polyline_m,
    spec_read_polyline_z, z_bytes, PointKind, Polygon, PolygonM, PolygonZ, Polyline, PolylineM,
    PolylineZ,
};
use crate::shape_type::{lemma_tag_round_trip, tag_from_value, tag_value, ShapeType};

verus! {

pub open spec fn spec_read_point(s: Seq<u8>, rs: int) -> Result<Point, Error> {
    if rs != 16 {
        Err(Error::InvalidShapeRecordSize)
    } else if s.len() < rs {
        Err(Error::IoError)
    } else {
        Ok(Point { x: word_at(s, 0), y: word_at(s, 8) })
    }
}

/// A PointM content is 24 bytes, or 16 when the measure is left out.
pub open spec fn spec_read_point_m(s: Seq<u8>, rs: int) -> Result<PointM, Error> {
    if rs != 16 && rs != 24 {
        Err(Error::InvalidShapeRecordSize)
    } else if s.len() < rs {
        Err(Error::IoError)
    } else {
        Ok(
            PointM {
                x: word_at(s, 0),
                y: word_at(s, 8),
                m: if rs == 24 {
                    word_at(s, 16)
                } else {
                    NO_DATA
                },
            },
        )
    }
}

/// A PointZ content is 32 bytes, or 24 when the measure is left out.
pub open spec fn spec_read_point_z(s: Seq<u8>, rs: int) -> Result<PointZ, Error> {
    if rs != 24 && rs != 32 {
        Err(Error::InvalidShapeRecordSize)
    } else if s.len() < rs {
        Err(Error::IoError)
    } else {
        Ok(
            PointZ {
                x: word_at(s, 0),
                y: word_at(s, 8),
                z: word_at(s, 16),
                m: if rs == 32 {
                    word_at(s, 24)
                } else {
                    NO_DATA
                },
            },
        )
    }
}

fn read_point(src: &[u8], record_size: i32) -> (r: Result<Point, Error>)
    ensures
        r == spec_read_point(src@, record_size as int),
{
    if record_size != 16 {
        return Err(Error::InvalidShapeRecordSize);
    }
    if src.len() < 16 {
        return Err(Error::IoError);
    }
    Ok(Point { x: read_le_u64(src, 0), y: read_le_u64(src, 8) })
}

fn read_point_m(src: &[u8], record_size: i32) -> (r: Result<PointM, Error>)
    ensures
        r == spec_read_point_m(src@, record_size as int),
{
    if record_size != 16 && record_size != 24 {
        return Err(Error::InvalidShapeRecordSize);
    }
    if src.len() < record_size as usize {
        return Err(Error::IoError);
    }
    let m = if record_size == 24 {
        read_le_u64(src, 16)
    } else {
        NO_DATA
    };
    Ok(PointM { x: read_le_u64(src, 0), y: read_le_u64(src, 8), m })
}

fn read_point_z(src: &[u8], record_size: i32) -> (r: Result<PointZ, Error>)
    ensures
        r == spec_read_point_z(src@, record_size as int),
{
    if record_size != 24 && record_size != 32 {
        return Err(Error::InvalidShapeRecordSize);
    }
    if src.len() < record_size as usize {
        return Err(Error::IoError);
    }
    let m = if record_size == 32 {
        read_le_u64(src, 24)
    } else {
        NO_DATA
    };
    Ok(PointZ { x: read_le_u64(src, 0), y: read_le_u64(src, 8), z: read_le_u64(src, 16), m })
}

/// One shape of any type.
#[derive(Debug, Clone, PartialEq)]
pub enum Shape {
    NullShape,
    Point(Point),
    PointM(PointM),
    PointZ(PointZ),
    Polyline(Polyline),
    PolylineM(PolylineM),
    PolylineZ(PolylineZ),
    Polygon(Polygon),
    PolygonM(PolygonM),
    PolygonZ(PolygonZ),
    Multipoint(Multipoint),
    MultipointM(MultipointM),
    MultipointZ(MultipointZ),
}

/// What a shape holds, as mathematical values.
pub enum ShapeView {
    NullShape,
    Point(Point),
    PointM(PointM),
    PointZ(PointZ),
    Polyline((BBox, Seq<i32>, Seq<Point>)),
    PolylineM((BBox, Seq<i32>, Seq<PointM>)),
    PolylineZ((BBox, Seq<i32>, Seq<PointZ>)),
    Polygon((BBox, Seq<i32>, Seq<Point>)),
    PolygonM((BBox, Seq<i32>, Seq<PointM>)),
    PolygonZ((BBox, Seq<i32>, Seq<PointZ>)),
    Multipoint((BBox, Seq<Point>)),
    MultipointM((BBox, Seq<PointM>)),
    MultipointZ((BBox, Seq<PointZ>)),
}

impl View for Shape {
    type V = ShapeView;

    open spec fn view(&self) -> ShapeView {
        match self {
            Shape::NullShape => ShapeView::NullShape,
            Shape::Point(p) => ShapeView::Point(*p),
            Shape::PointM(p) => ShapeView::PointM(*p),
            Shape::PointZ(p) => ShapeView::PointZ(*p),
            Shape::Polyline(p) => ShapeView::Polyline(p@),
            Shape::PolylineM(p) => ShapeView::PolylineM(p@),
            Shape::PolylineZ(p) => ShapeView::PolylineZ(p@),
            Shape::Polygon(p) => ShapeView::Polygon(p@),
            Shape::PolygonM(p) => ShapeView::PolygonM(p@),
            Shape::PolygonZ(p) => ShapeView::PolygonZ(p@),
            Shape::Multipoint(p) => ShapeView::Multipoint(p@),
            Shape::MultipointM(p) => ShapeView::MultipointM(p@),
            Shape::MultipointZ(p) => ShapeView::MultipointZ(p@),
        }
    }
}

pub open spec fn shape_type_of(v: ShapeView) -> ShapeType {
    match v {
        ShapeView::NullShape => ShapeType::NullShape,
        ShapeView::Point(_) => ShapeType::Point,
        ShapeView::PointM(_) => ShapeType::PointM,
        ShapeView::PointZ(_) => ShapeType::PointZ,
        ShapeView::Polyline(_) => ShapeType::Polyline,
        ShapeView::PolylineM(_) => ShapeType::PolylineM,
        ShapeView::PolylineZ(_) => ShapeType::PolylineZ,
        ShapeView::Polygon(_) => ShapeType::Polygon,
        ShapeView::PolygonM(_) => ShapeType::PolygonM,
        ShapeView::PolygonZ(_) => ShapeType::PolygonZ,
        ShapeView::Multipoint(_) => ShapeType::Multipoint,
        ShapeView::MultipointM(_) => ShapeType::MultipointM,
        ShapeView::MultipointZ(_) => ShapeType::MultipointZ,
    }
}

/// Reading the content `s`, of `rs` bytes, of a record tagged `t`.
#[verifier::opaque]
pub open spec fn spec_read_content(t: ShapeType, s: Seq<u8>, rs: int) -> Result<ShapeView, Error> {
    match t {
        ShapeType::NullShape => if rs == 0 {
            Ok(ShapeView::NullShape)
        } else {
            Err(Error::InvalidShapeRecordSize)
        },
        ShapeType::Point => match spec_read_point(s, rs) {
            Ok(v) => Ok(ShapeView::Point(v)),
            Err(e) => Err(e),
        },
        ShapeType::PointM => match spec_read_point_m(s, rs) {
            Ok(v) => Ok(ShapeView::PointM(v)),
            Err(e) => Err(e),
        },
        ShapeType::PointZ => match spec_read_point_z(s, rs) {
            Ok(v) => Ok(ShapeView::PointZ(v)),
            Err(e) => Err(e),
        },
        ShapeType::Polyline => match spec_read_polyline(s, rs) {
            Ok(v) => Ok(ShapeView::Polyline(v)),
            Err(e) => Err(e),
        },
        ShapeType::PolylineM => match spec_read_polyline_m(s, rs) {
            Ok(v) => Ok(ShapeView::PolylineM(v)),
            Err(e) => Err(e),
        },
        ShapeType::PolylineZ => match spec_read_polyline_z(s, rs) {
            Ok(v) => Ok(ShapeView::PolylineZ(v)),
            Err(e) => Err(e),
        },
        ShapeType::Polygon => match as_polygon(spec_read_polyline(s, rs)) {
            Ok(v) => Ok(ShapeView::Polygon(v)),
            Err(e) => Err(e),
        },
        ShapeType::PolygonM => match as_polygon(spec_read_polyline_m(s, rs)) {
            Ok(v) => Ok(ShapeView::PolygonM(v)),
            Err(e) => Err(e),
        },
        ShapeType::PolygonZ => match as_polygon(spec_read_polyline_z(s, rs)) {
            Ok(v) => Ok(ShapeView::PolygonZ(v)),
            Err(e) => Err(e),
        },
        ShapeType::Multipoint => match spec_read_multipoint(s, rs) {
            Ok(v) => Ok(ShapeView::Multipoint(v)),
            Err(e) => Err(e),
        },
        ShapeType::MultipointM => match spec_read_multipoint_m(s, rs) {
            Ok(v) => Ok(ShapeView::MultipointM(v)),
            Err(e) => Err(e),
        },
        ShapeType::MultipointZ => match spec_read_multipoint_z(s, rs) {
            Ok(v) => Ok(ShapeView::MultipointZ(v)),
            Err(e) => Err(e),
        },
    }
}

/// Reading the record at the start of `s` in a file whose header names
/// `header_type`: the record number, the shape, and the number of bytes the
/// record takes.
pub open spec fn spec_read_record(s: Seq<u8>, header_type: ShapeType) -> Result<
    (i32, ShapeView, int),
    Error,
> {
    if s.len() < 12 {
        Err(Error::IoError)
    } else {
        let number = be_u32(s.subrange(0, 4)) as i32;
        let words = be_u32(s.subrange(4, 8)) as i32;
        let tag = le_u32(s.subrange(8, 12)) as i32;
        match tag_from_value(tag) {
            None => Err(Error::InvalidShapeType(tag)),
            Some(t) => if t != ShapeType::NullShape && t != header_type {
                Err(Error::MismatchedShapeType { requested: header_type, actual: t })
            } else if words < 2 || 2 * words - 4 > i32::MAX {
                Err(Error::InvalidShapeRecordSize)
            } else {
                let rs = 2 * words - 4;
                match spec_read_content(t, s.subrange(12, s.len() as int), rs) {
                    Ok(v) => Ok((number, v, 12 + rs)),
                    Err(e) => Err(e),
                }
            },
        }
    }
}

/// Reads the record at the start of `source`, in a file whose header names
/// `header_type`. On success gives the record number, the shape, and how
/// many bytes the record took: its 8 framing bytes and its declared content.
pub fn read_record(source: &[u8], header_type: ShapeType) -> (r: Result<(i32, Shape, usize), Error>)
    ensures
        match r {
            Ok((number, shape, used)) => spec_read_record(source@, header_type) == Ok::<
                (i32, ShapeView, int),
                Error,
            >((number, shape@, used as int)),
            Err(e) => spec_read_record(source@, header_type) == Err::<(i32, ShapeView, int), Error>(
                e,
            ),
        },
{
    reveal(spec_read_content);
    if source.len() < 12 {
        return Err(Error::IoError);
    }
    let number = read_be_u32(source, 0) as i32;
    let words = read_be_u32(source, 4) as i32;
    let t = ShapeType::from_i32(read_le_u32(source, 8) as i32)?;
    if t != ShapeType::NullShape && t != header_type {
        return Err(Error::MismatchedShapeType { requested: header_type, actual: t });
    }
    if words < 2 || words > 1_073_741_825 {
        return Err(Error::InvalidShapeRecordSize);
    }
    let rs = (2 * (words as i64) - 4) as i32;
    let content = slice_subrange(source, 12, source.len());
    let shape = match t {
        ShapeType::NullShape => {
            if rs != 0 {
                return Err(Error::InvalidShapeRecordSize);
            }
            Shape::NullShape
        },
        ShapeType::Point => Shape::Point(read_point(content, rs)?),
        ShapeType::PointM => Shape::PointM(read_point_m(content, rs)?),
        ShapeType::PointZ => Shape::PointZ(read_point_z(content, rs)?),
        ShapeType::Polyline => Shape::Polyline(Polyline::read_shape_content(content, rs)?),
        ShapeType::PolylineM => Shape::PolylineM(PolylineM::read_shape_content(content, rs)?),
        ShapeType::PolylineZ => Shape::PolylineZ(PolylineZ::read_shape_content(content, rs)?),
        ShapeType::Polygon => Shape::Polygon(Polygon::read_shape_content(content, rs)?),
        ShapeType::PolygonM => Shape::PolygonM(PolygonM::read_shape_content(content, rs)?),
        ShapeType::PolygonZ => Shape::PolygonZ(PolygonZ::read_shape_content(content, rs)?),
        ShapeType::Multipoint => Shape::Multipoint(Multipoint::read_shape_content(content, rs)?),
        ShapeType::MultipointM => Shape::MultipointM(MultipointM::read_shape_content(content, rs)?),
        ShapeType::MultipointZ => Shape::MultipointZ(MultipointZ::read_shape_content(content, rs)?),
    };
    Ok((number, shape, 12 + rs as usize))
}


/// The content bytes written for a shape.
#[verifier::opaque]
pub open spec fn content_of(v: ShapeView) -> Seq<u8> {
    match v {
        ShapeView::NullShape => Seq::empty(),
        ShapeView::Point(p) => le_u64s_bytes(seq![p.x, p.y]),
        ShapeView::PointM(p) => le_u64s_bytes(seq![p.x, p.y, p.m]),
        ShapeView::PointZ(p) => le_u64s_bytes(seq![p.x, p.y, p.z, p.m]),
        ShapeView::Polyline(l) => plain_bytes(l),
        ShapeView::PolylineM(l) => m_bytes(l),
        ShapeView::PolylineZ(l) => z_bytes(l),
        ShapeView::Polygon(l) => plain_bytes(l),
        ShapeView::PolygonM(l) => m_bytes(l),
        ShapeView::PolygonZ(l) => z_bytes(l),
        ShapeView::Multipoint(m) => points_content_bytes(m.1, tail_plain(m.1)),
        ShapeView::MultipointM(m) => points_content_bytes(m.1, tail_m(m.1)),
        ShapeView::MultipointZ(m) => points_content_bytes(m.1, tail_z(m.1)),
    }
}

/// The size in bytes of the content written for a shape.
pub open spec fn content_len(v: ShapeView) -> int {
    match v {
        ShapeView::NullShape => 0,
        ShapeView::Point(_) => 16,
        ShapeView::PointM(_) => 24,
        ShapeView::PointZ(_) => 32,
        ShapeView::Polyline(l) => content_size(PointKind::Plain, l.2.len() as int, l.1.len() as int, true),
        ShapeView::PolylineM(l) => content_size(PointKind::M, l.2.len() as int, l.1.len() as int, true),
        ShapeView::PolylineZ(l) => content_size(PointKind::Z, l.2.len() as int, l.1.len() as int, true),
        ShapeView::Polygon(l) => content_size(PointKind::Plain, l.2.len() as int, l.1.len() as int, true),
        ShapeView::PolygonM(l) => content_size(PointKind::M, l.2.len() as int, l.1.len() as int, true),
        ShapeView::PolygonZ(l) => content_size(PointKind::Z, l.2.len() as int, l.1.len() as int, true),
        ShapeView::Multipoint(m) => multipoint_size(PointKind::Plain, m.1.len() as int, true),
        ShapeView::MultipointM(m) => multipoint_size(PointKind::M, m.1.len() as int, true),
        ShapeView::MultipointZ(m) => multipoint_size(PointKind::Z, m.1.len() as int, true),
    }
}

/// The parts of a multipart shape are valid.
pub open spec fn shape_valid(v: ShapeView) -> bool {
    match v {
        ShapeView::Polyline(l) => parts_valid(l.1, l.2.len() as int),
        ShapeView::PolylineM(l) => parts_valid(l.1, l.2.len() as int),
        ShapeView::PolylineZ(l) => parts_valid(l.1, l.2.len() as int),
        ShapeView::Polygon(l) => parts_valid(l.1, l.2.len() as int),
        ShapeView::PolygonM(l) => parts_valid(l.1, l.2.len() as int),
        ShapeView::PolygonZ(l) => parts_valid(l.1, l.2.len() as int),
        _ => true,
    }
}

/// The content and its tag fit the `i32` sizes of the format.
pub open spec fn shape_fits(v: ShapeView) -> bool {
    content_len(v) + 4 <= i32::MAX
}

/// Every ring of a polygon closes; decoding refuses polygons where one does not.
pub open spec fn shape_rings_closed(v: ShapeView) -> bool {
    match v {
        ShapeView::Polygon(l) => rings_closed(l.1, l.2),
        ShapeView::PolygonM(l) => rings_closed(l.1, l.2),
        ShapeView::PolygonZ(l) => rings_closed(l.1, l.2),
        _ => true,
    }
}

/// The stored box of a shape is the box of its points.
pub open spec fn shape_box_consistent(v: ShapeView) -> bool {
    match v {
        ShapeView::Polyline(l) => l.0 == bbox_of(l.2),
        ShapeView::PolylineM(l) => l.0 == bbox_of(l.2),
        ShapeView::PolylineZ(l) => l.0 == bbox_of(l.2),
        ShapeView::Polygon(l) => l.0 == bbox_of(l.2),
        ShapeView::PolygonM(l) => l.0 == bbox_of(l.2),
        ShapeView::PolygonZ(l) => l.0 == bbox_of(l.2),
        ShapeView::Multipoint(m) => m.0 == bbox_of(m.1),
        ShapeView::MultipointM(m) => m.0 == bbox_of(m.1),
        ShapeView::MultipointZ(m) => m.0 == bbox_of(m.1),
        _ => true,
    }
}

/// The bytes of a record: number and length in 16-bit words (big-endian),
/// tag (little-endian), content.
#[verifier::opaque]
pub open spec fn record_bytes(number: i32, v: ShapeView) -> Seq<u8> {
    be_u32_bytes(number as u32) + be_u32_bytes(((content_len(v) + 4) / 2) as u32) + le_u32_bytes(
        tag_value(shape_type_of(v)) as u32,
    ) + content_of(v)
}

impl Shape {
    /// The shape-type tag of this shape.
    pub fn shape_type(&self) -> (r: ShapeType)
        ensures
            r == shape_type_of(self@),
    {
        match self {
            Shape::NullShape => ShapeType::NullShape,
            Shape::Point(_) => ShapeType::Point,
            Shape::PointM(_) => ShapeType::PointM,
            Shape::PointZ(_) => ShapeType::PointZ,
            Shape::Polyline(_) => ShapeType::Polyline,
            Shape::PolylineM(_) => ShapeType::PolylineM,
            Shape::PolylineZ(_) => ShapeType::PolylineZ,
            Shape::Polygon(_) => ShapeType::Polygon,
            Shape::PolygonM(_) => ShapeType::PolygonM,
            Shape::PolygonZ(_) => ShapeType::PolygonZ,
            Shape::Multipoint(_) => ShapeType::Multipoint,
            Shape::MultipointM(_) => ShapeType::MultipointM,
            Shape::MultipointZ(_) => ShapeType::MultipointZ,
        }
    }
}

fn multipart_fits(kind: PointKind, n: usize, np: usize) -> (r: bool)
    ensures
        r == (content_size(kind, n as int, np as int, true) + 4 <= i32::MAX),
{
    if n > i32::MAX as usize || np > i32::MAX as usize {
        return false;
    }
    size_of_record(kind, n as i32, np as i32, true) + 4 <= i32::MAX as u64
}

fn points_fit(kind: PointKind, n: usize) -> (r: bool)
    ensures
        r == (multipoint_size(kind, n as int, true) + 4 <= i32::MAX),
{
    if n > i32::MAX as usize {
        return false;
    }
    multipoint_size_of_record(kind, n as i32, true) + 4 <= i32::MAX as u64
}

/// Whether the shape's content and tag fit the `i32` sizes of the format, as
/// `write_record` needs.
pub fn record_fits(shape: &Shape) -> (r: bool)
    ensures
        r == shape_fits(shape@),
{
    match shape {
        Shape::NullShape | Shape::Point(_) | Shape::PointM(_) | Shape::PointZ(_) => true,
        Shape::Polyline(l) => multipart_fits(PointKind::Plain, l.points.len(), l.parts.len()),
        Shape::PolylineM(l) => multipart_fits(PointKind::M, l.points.len(), l.parts.len()),
        Shape::PolylineZ(l) => multipart_fits(PointKind::Z, l.points.len(), l.parts.len()),
        Shape::Polygon(l) => multipart_fits(PointKind::Plain, l.points.len(), l.parts.len()),
        Shape::PolygonM(l) => multipart_fits(PointKind::M, l.points.len(), l.parts.len()),
        Shape::PolygonZ(l) => multipart_fits(PointKind::Z, l.points.len(), l.parts.len()),
        Shape::Multipoint(m) => points_fit(PointKind::Plain, m.points.len()),
        Shape::MultipointM(m) => points_fit(PointKind::M, m.points.len()),
        Shape::MultipointZ(m) => points_fit(PointKind::Z, m.points.len()),
    }
}

/// Appends the record of `shape`, numbered `record_number`, to `dest`.
/// `MalformedShape`, writing nothing, when the shape's parts are not valid or
/// a polygon ring does not close.
pub fn write_record(dest: &mut Vec<u8>, record_number: i32, shape: &Shape) -> (r: Result<(), Error>)
    requires
        shape_fits(shape@),
    ensures
        shape_valid(shape@) ==> r == Ok::<(), Error>(()) && final(dest)@ == old(dest)@
            + record_bytes(record_number, shape@),
        !shape_valid(shape@) ==> r == Err::<(), Error>(Error::MalformedShape) && final(dest)@
            == old(dest)@,
{
    let mut content: Vec<u8> = Vec::new();
    let len: u64 = match shape {
        Shape::NullShape => 0,
        Shape::Point(p) => {
            let w: [u64; 2] = [p.x, p.y];
            write_le_u64s(&mut content, &w);
            assert(w@ =~= seq![p.x, p.y]);
            16
        },
        Shape::PointM(p) => {
            let w: [u64; 3] = [p.x, p.y, p.m];
            write_le_u64s(&mut content, &w);
            assert(w@ =~= seq![p.x, p.y, p.m]);
            24
        },
        Shape::PointZ(p) => {
            let w: [u64; 4] = [p.x, p.y, p.z, p.m];
            write_le_u64s(&mut content, &w);
            assert(w@ =~= seq![p.x, p.y, p.z, p.m]);
            32
        },
        Shape::Polyline(l) => {
            l.write_to(&mut content)?;
            l.size_in_bytes()
        },
        Shape::PolylineM(l) => {
            l.write_to(&mut content)?;
            l.size_in_bytes()
        },
        Shape::PolylineZ(l) => {
            l.write_to(&mut content)?;
            l.size_in_bytes()
        },
        Shape::Polygon(l) => {
            l.write_to(&mut content)?;
            l.size_in_bytes()
        },
        Shape::PolygonM(l) => {
            l.write_to(&mut content)?;
            l.size_in_bytes()
        },
        Shape::PolygonZ(l) => {
            l.write_to(&mut content)?;
            l.size_in_bytes()
        },
        Shape::Multipoint(m) => {
            m.write_to(&mut content);
            m.size_in_bytes()
        },
        Shape::MultipointM(m) => {
            m.write_to(&mut content);
            m.size_in_bytes()
        },
        Shape::MultipointZ(m) => {
            m.write_to(&mut content);
            m.size_in_bytes()
        },
    };
    reveal(content_of);
    assert(content@ =~= content_of(shape@));
    write_be_u32(dest, record_number as u32);
    write_be_u32(dest, ((len + 4) / 2) as u32);
    write_le_u32(dest, shape.shape_type().to_i32() as u32);
    push_bytes(dest, content.as_slice());
    reveal(record_bytes);
    assert(final(dest)@ =~= old(dest)@ + record_bytes(record_number, shape@));
    Ok(())
}


proof fn lemma_content_len(v: ShapeView)
    requires
        shape_fits(v),
    ensures
        content_of(v).len() == content_len(v),
{
    reveal(content_of);
    match v {
        ShapeView::Point(p) => lemma_le_u64s_len(seq![p.x, p.y]),
        ShapeView::PointM(p) => lemma_le_u64s_len(seq![p.x, p.y, p.m]),
        ShapeView::PointZ(p) => lemma_le_u64s_len(seq![p.x, p.y, p.z, p.m]),
        ShapeView::Polyline(l) => {
            lemma_xy_words(l.2);
            lemma_content_layout(l.1, l.2, tail_plain(l.2), Seq::empty());
        },
        ShapeView::PolylineM(l) => {
            lemma_xy_words(l.2);
            lemma_content_layout(l.1, l.2, tail_m(l.2), Seq::empty());
        },
        ShapeView::PolylineZ(l) => {
            lemma_xy_words(l.2);
            lemma_content_layout(l.1, l.2, tail_z(l.2), Seq::empty());
        },
        ShapeView::Polygon(l) => {
            lemma_xy_words(l.2);
            lemma_content_layout(l.1, l.2, tail_plain(l.2), Seq::empty());
        },
        ShapeView::PolygonM(l) => {
            lemma_xy_words(l.2);
            lemma_content_layout(l.1, l.2, tail_m(l.2), Seq::empty());
        },
        ShapeView::PolygonZ(l) => {
            lemma_xy_words(l.2);
            lemma_content_layout(l.1, l.2, tail_z(l.2), Seq::empty());
        },
        ShapeView::Multipoint(m) => {
            lemma_xy_words(m.1);
            lemma_points_content_len(m.1, tail_plain(m.1));
        },
        ShapeView::MultipointM(m) => {
            lemma_xy_words(m.1);
            lemma_points_content_len(m.1, tail_m(m.1));
        },
        ShapeView::MultipointZ(m) => {
            lemma_xy_words(m.1);
            lemma_points_content_len(m.1, tail_z(m.1));
        },
        ShapeView::NullShape => {},
    }
}

proof fn lemma_point_reads_back(p: Point, rest: Seq<u8>)
    ensures
        spec_read_content(ShapeType::Point, content_of(ShapeView::Point(p)) + rest, 16) == Ok::<
            ShapeView,
            Error,
        >(ShapeView::Point(p)),
{
    reveal(content_of);
    reveal(spec_read_content);
    let s = content_of(ShapeView::Point(p)) + rest;
    lemma_le_u64s_len(seq![p.x, p.y]);
    assert(s.subrange(0, 16) =~= le_u64s_bytes(seq![p.x, p.y]));
    lemma_le_u64s_read_back(s, 0, seq![p.x, p.y]);
    let w = le_u64s_at(s, 0, 2);
    assert(word_at(s, 0) == w[0] && word_at(s, 8) == w[1]);
}

proof fn lemma_point_m_reads_back(p: PointM, rest: Seq<u8>)
    ensures
        spec_read_content(ShapeType::PointM, content_of(ShapeView::PointM(p)) + rest, 24) == Ok::<
            ShapeView,
            Error,
        >(ShapeView::PointM(p)),
{
    reveal(content_of);
    reveal(spec_read_content);
    let s = content_of(ShapeView::PointM(p)) + rest;
    lemma_le_u64s_len(seq![p.x, p.y, p.m]);
    assert(s.subrange(0, 24) =~= le_u64s_bytes(seq![p.x, p.y, p.m]));
    lemma_le_u64s_read_back(s, 0, seq![p.x, p.y, p.m]);
    let w = le_u64s_at(s, 0, 3);
    assert(word_at(s, 0) == w[0] && word_at(s, 8) == w[1] && word_at(s, 16) == w[2]);
}

proof fn lemma_point_z_reads_back(p: PointZ, rest: Seq<u8>)
    ensures
        spec_read_content(ShapeType::PointZ, content_of(ShapeView::PointZ(p)) + rest, 32) == Ok::<
            ShapeView,
            Error,
        >(ShapeView::PointZ(p)),
{
    reveal(content_of);
    reveal(spec_read_content);
    let s = content_of(ShapeView::PointZ(p)) + rest;
    lemma_le_u64s_len(seq![p.x, p.y, p.z, p.m]);
    assert(s.subrange(0, 32) =~= le_u64s_bytes(seq![p.x, p.y, p.z, p.m]));
    lemma_le_u64s_read_back(s, 0, seq![p.x, p.y, p.z, p.m]);
    let w = le_u64s_at(s, 0, 4);
    assert(word_at(s, 0) == w[0] && word_at(s, 8) == w[1] && word_at(s, 16) == w[2] && word_at(s, 24)
        == w[3]);
}

proof fn lemma_polyline_reads_back(l: Polyline, rest: Seq<u8>)
    requires
        parts_valid(l.parts@, l.points@.len() as int),
        l.bbox == bbox_of(l.points@),
        content_size(PointKind::Plain, l.points@.len() as int, l.parts@.len() as int, true) + 4 <= i32::MAX,
    ensures
        spec_read_content(ShapeType::Polyline, content_of(ShapeView::Polyline(l@)) + rest, content_size(PointKind::Plain, l.points@.len() as int, l.parts@.len() as int, true)) == Ok::<
            ShapeView,
            Error,
        >(ShapeView::Polyline(l@)),
{
    reveal(content_of);
    reveal(spec_read_content);
    lemma_polyline_round_trip(l, rest);
}

proof fn lemma_polyline_m_reads_back(l: PolylineM, rest: Seq<u8>)
    requires
        parts_valid(l.parts@, l.points@.len() as int),
        l.bbox == bbox_of(l.points@),
        content_size(PointKind::M, l.points@.len() as int, l.parts@.len() as int, true) + 4 <= i32::MAX,
    ensures
        spec_read_content(ShapeType::PolylineM, content_of(ShapeView::PolylineM(l@)) + rest, content_size(PointKind::M, l.points@.len() as int, l.parts@.len() as int, true)) == Ok::<
            ShapeView,
            Error,
        >(ShapeView::PolylineM(l@)),
{
    reveal(content_of);
    reveal(spec_read_content);
    lemma_polyline_m_round_trip(l, rest);
}

proof fn lemma_polyline_z_reads_back(l: PolylineZ, rest: Seq<u8>)
    requires
        parts_valid(l.parts@, l.points@.len() as int),
        l.bbox == bbox_of(l.points@),
        content_size(PointKind::Z, l.points@.len() as int, l.parts@.len() as int, true) + 4 <= i32::MAX,
    ensures
        spec_read_content(ShapeType::PolylineZ, content_of(ShapeView::PolylineZ(l@)) + rest, content_size(PointKind::Z, l.points@.len() as int, l.parts@.len() as int, true)) == Ok::<
            ShapeView,
            Error,
        >(ShapeView::PolylineZ(l@)),
{
    reveal(content_of);
    reveal(spec_read_content);
    lemma_polyline_z_round_trip(l, rest);
}

proof fn lemma_polygon_reads_back(l: Polygon, rest: Seq<u8>)
    requires
        polygon_valid(l.parts@, l.points@),
        l.bbox == bbox_of(l.points@),
        content_size(PointKind::Plain, l.points@.len() as int, l.parts@.len() as int, true) + 4 <= i32::MAX,
    ensures
        spec_read_content(ShapeType::Polygon, content_of(ShapeView::Polygon(l@)) + rest, content_size(PointKind::Plain, l.points@.len() as int, l.parts@.len() as int, true)) == Ok::<
            ShapeView,
            Error,
        >(ShapeView::Polygon(l@)),
{
    reveal(content_of);
    reveal(spec_read_content);
    lemma_polygon_round_trip(l, rest);
}

proof fn lemma_polygon_m_reads_back(l: PolygonM, rest: Seq<u8>)
    requires
        polygon_valid(l.parts@, l.points@),
        l.bbox == bbox_of(l.points@),
        content_size(PointKind::M, l.points@.len() as int, l.parts@.len() as int, true) + 4 <= i32::MAX,
    ensures
        spec_read_content(ShapeType::PolygonM, content_of(ShapeView::PolygonM(l@)) + rest, content_size(PointKind::M, l.points@.len() as int, l.parts@.len() as int, true)) == Ok::<
            ShapeView,
            Error,
        >(ShapeView::PolygonM(l@)),
{
    reveal(content_of);
    reveal(spec_read_content);
    lemma_polygon_m_round_trip(l, rest);
}

proof fn lemma_polygon_z_reads_back(l: PolygonZ, rest: Seq<u8>)
    requires
        polygon_valid(l.parts@, l.points@),
        l.bbox == bbox_of(l.points@),
        content_size(PointKind::Z, l.points@.len() as int, l.parts@.len() as int, true) + 4 <= i32::MAX,
    ensures
        spec_read_content(ShapeType::PolygonZ, content_of(ShapeView::PolygonZ(l@)) + rest, content_size(PointKind::Z, l.points@.len() as int, l.parts@.len() as int, true)) == Ok::<
            ShapeView,
            Error,
        >(ShapeView::PolygonZ(l@)),
{
    reveal(content_of);
    reveal(spec_read_content);
    lemma_polygon_z_round_trip(l, rest);
}

proof fn lemma_multipoint_reads_back(l: Multipoint, rest: Seq<u8>)
    requires
        l.bbox == bbox_of(l.points@),
        multipoint_size(PointKind::Plain, l.points@.len() as int, true) + 4 <= i32::MAX,
    ensures
        spec_read_content(ShapeType::Multipoint, content_of(ShapeView::Multipoint(l@)) + rest, multipoint_size(PointKind::Plain, l.points@.len() as int, true)) == Ok::<
            ShapeView,
            Error,
        >(ShapeView::Multipoint(l@)),
{
    reveal(content_of);
    reveal(spec_read_content);
    lemma_multipoint_round_trip(l, rest);
}

proof fn lemma_multipoint_m_reads_back(l: MultipointM, rest: Seq<u8>)
    requires
        l.bbox == bbox_of(l.points@),
        multipoint_size(PointKind::M, l.points@.len() as int, true) + 4 <= i32::MAX,
    ensures
        spec_read_content(ShapeType::MultipointM, content_of(ShapeView::MultipointM(l@)) + rest, multipoint_size(PointKind::M, l.points@.len() as int, true)) == Ok::<
            ShapeView,
            Error,
        >(ShapeView::MultipointM(l@)),
{
    reveal(content_of);
    reveal(spec_read_content);
    lemma_multipoint_m_round_trip(l, rest);
}

proof fn lemma_multipoint_z_reads_back(l: MultipointZ, rest: Seq<u8>)
    requires
        l.bbox == bbox_of(l.points@),
        multipoint_size(PointKind::Z, l.points@.len() as int, true) + 4 <= i32::MAX,
    ensures
        spec_read_content(ShapeType::MultipointZ, content_of(ShapeView::MultipointZ(l@)) + rest, multipoint_size(PointKind::Z, l.points@.len() as int, true)) == Ok::<
            ShapeView,
            Error,
        >(ShapeView::MultipointZ(l@)),
{
    reveal(content_of);
    reveal(spec_read_content);
    lemma_multipoint_z_round_trip(l, rest);
}

proof fn lemma_content_reads_back(shape: Shape, rest: Seq<u8>)
    requires
        shape_valid(shape@),
        shape_rings_closed(shape@),
        shape_fits(shape@),
        shape_box_consistent(shape@),
    ensures
        spec_read_content(shape_type_of(shape@), content_of(shape@) + rest, content_len(shape@)) == Ok::<
            ShapeView,
            Error,
        >(shape@),
{
    match shape {
        Shape::Point(p) => lemma_point_reads_back(p, rest),
        Shape::PointM(p) => lemma_point_m_reads_back(p, rest),
        Shape::PointZ(p) => lemma_point_z_reads_back(p, rest),
        Shape::Polyline(l) => lemma_polyline_reads_back(l, rest),
        Shape::PolylineM(l) => lemma_polyline_m_reads_back(l, rest),
        Shape::PolylineZ(l) => lemma_polyline_z_reads_back(l, rest),
        Shape::Polygon(l) => lemma_polygon_reads_back(l, rest),
        Shape::PolygonM(l) => lemma_polygon_m_reads_back(l, rest),
        Shape::PolygonZ(l) => lemma_polygon_z_reads_back(l, rest),
        Shape::Multipoint(l) => lemma_multipoint_reads_back(l, rest),
        Shape::MultipointM(l) => lemma_multipoint_m_reads_back(l, rest),
        Shape::MultipointZ(l) => lemma_multipoint_z_reads_back(l, rest),
        Shape::NullShape => {
            reveal(spec_read_content);
        },
    }
}

#[verifier::rlimit(30)]
proof fn lemma_record_layout(record_number: i32, v: ShapeView, rest: Seq<u8>)
    requires
        shape_fits(v),
    ensures
        ({
            let s = record_bytes(record_number, v) + rest;
            let c = content_len(v);
            &&& record_bytes(record_number, v).len() == 12 + c
            &&& s.len() == 12 + c + rest.len()
            &&& be_u32(s.subrange(0, 4)) as i32 == record_number
            &&& be_u32(s.subrange(4, 8)) as i32 == (c + 4) / 2
            &&& 2 * ((c + 4) / 2) - 4 == c
            &&& le_u32(s.subrange(8, 12)) as i32 == tag_value(shape_type_of(v))
            &&& s.subrange(12, s.len() as int) == content_of(v) + rest
        }),
{
    reveal(record_bytes);
    let t = shape_type_of(v);
    let c = content_len(v);
    let words = (c + 4) / 2;
    let s = record_bytes(record_number, v) + rest;
    lemma_content_len(v);
    assert(c % 4 == 0);
    assert(s.subrange(0, 4) =~= be_u32_bytes(record_number as u32));
    assert(s.subrange(4, 8) =~= be_u32_bytes(words as u32));
    assert(s.subrange(8, 12) =~= le_u32_bytes(tag_value(t) as u32));
    assert(s.subrange(12, s.len() as int) =~= content_of(v) + rest);
    lemma_be_u32_round_trip(record_number as u32);
    lemma_be_u32_round_trip(words as u32);
    lemma_le_u32_round_trip(tag_value(t) as u32);
    lemma_i32_u32_round_trip(record_number);
    lemma_i32_u32_round_trip(words as i32);
    lemma_i32_u32_round_trip(tag_value(t));
}

/// Writing a valid shape as a record and reading the record back, in a file
/// whose header names the shape's type and whatever bytes follow the record,
/// gives the record number and the shape, and consumes exactly the bytes
/// written. A polygon reads back when its rings close. Measures come back as
/// written, since writers always emit the m block.
#[verifier::rlimit(30)]
pub proof fn lemma_record_round_trip(record_number: i32, shape: Shape, rest: Seq<u8>)
    requires
        shape_valid(shape@),
        shape_rings_closed(shape@),
        shape_fits(shape@),
        shape_box_consistent(shape@),
    ensures
        spec_read_record(record_bytes(record_number, shape@) + rest, shape_type_of(shape@)) == Ok::<
            (i32, ShapeView, int),
            Error,
        >((record_number, shape@, record_bytes(record_number, shape@).len() as int)),
{
    lemma_record_layout(record_number, shape@, rest);
    lemma_content_reads_back(shape, rest);
    lemma_tag_round_trip(shape_type_of(shape@));
}

/// Every decoded multipart shape has a valid parts array: non-empty, starting
/// at 0, strictly increasing, and indexing into its points.
pub proof fn lemma_decoded_parts_valid(s: Seq<u8>, header_type: ShapeType)
    ensures
        match spec_read_record(s, header_type) {
            Ok((_, ShapeView::Polyline(l), _)) => parts_valid(l.1, l.2.len() as int),
            Ok((_, ShapeView::PolylineM(l), _)) => parts_valid(l.1, l.2.len() as int),
            Ok((_, ShapeView::PolylineZ(l), _)) => parts_valid(l.1, l.2.len() as int),
            Ok((_, ShapeView::Polygon(l), _)) => parts_valid(l.1, l.2.len() as int),
            Ok((_, ShapeView::PolygonM(l), _)) => parts_valid(l.1, l.2.len() as int),
            Ok((_, ShapeView::PolygonZ(l), _)) => parts_valid(l.1, l.2.len() as int),
            _ => true,
        },
{
    reveal(spec_read_content);
    reveal(spec_read_frame);
}

/// Every ring of a decoded polygon closes.
pub proof fn lemma_decoded_rings_closed(s: Seq<u8>, header_type: ShapeType)
    ensures
        match spec_read_record(s, header_type) {
            Ok((_, ShapeView::Polygon(l), _)) => rings_closed(l.1, l.2),
            Ok((_, ShapeView::PolygonM(l), _)) => rings_closed(l.1, l.2),
            Ok((_, ShapeView::PolygonZ(l), _)) => rings_closed(l.1, l.2),
            _ => true,
        },
{
    reveal(spec_read_content);
}

/// A decoded record takes exactly its 8 framing bytes and its declared
/// content length (in 16-bit words).
pub proof fn lemma_decoded_record_length(s: Seq<u8>, header_type: ShapeType)
    ensures
        match spec_read_record(s, header_type) {
            Ok((_, _, used)) => used == 8 + 2 * (be_u32(s.subrange(4, 8)) as i32) && used <= s.len(),
            _ => true,
        },
{
    reveal(spec_read_content);
    reveal(spec_read_frame);
    reveal(spec_read_points_frame);
}

/// A record whose tag is outside the enumeration is refused with
/// `InvalidShapeType` and that tag.
pub proof fn lemma_unknown_tag_rejected(s: Seq<u8>, header_type: ShapeType)
    requires
        s.len() >= 12,
        tag_from_value(le_u32(s.subrange(8, 12)) as i32) is None,
    ensures
        spec_read_record(s, header_type) == Err::<(i32, ShapeView, int), Error>(
            Error::InvalidShapeType(le_u32(s.subrange(8, 12)) as i32),
        ),
{
}

} // verus!
