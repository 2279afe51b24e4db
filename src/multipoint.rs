//! Multipoints: a flat set of points, in plain, measured (M) and 3-D (Z) flavours.
//!
//! The content is a bounding box, the number of points, then the same words
//! as a multipart shape has after its parts.

use vstd::prelude::*;
use crate::bytes::{
    le_u32, le_u32_bytes, le_u64s_at, le_u64s_bytes, lemma_le_u32_round_trip, lemma_le_u64s_len,
    lemma_le_u64s_read_back, read_le_u32, read_le_u64, read_le_u64s, word_at, write_le_u32,
    write_le_u64s,
};
use crate::error::Error;
use crate::point::{bbox_of, ms_of_m, ms_of_z, zs_of, BBox, HasXY, Point, PointM, PointZ};
use crate::poly::{
    bbox_words, build_points_m, build_points_plain, build_points_z, lemma_xy_words, points_m,
    points_plain, points_z, tail_len, tail_m, tail_of_m, tail_of_plain, tail_of_z, tail_plain,
    tail_z, xy_words, PointKind,
};

verus! {

/// The content size in bytes of a multipoint with `n` points.
pub open spec fn multipoint_size(kind: PointKind, n: int, with_m: bool) -> int {
    36 + 8 * tail_len(kind, n, with_m)
}

/// The content size in bytes of a multipoint with `num_points` points, with
/// or without the m block.
pub fn multipoint_size_of_record(kind: PointKind, num_points: i32, is_m_used: bool) -> (r: u64)
    requires
        num_points >= 0,
    ensures
        r == multipoint_size(kind, num_points as int, is_m_used),
{
    let n = num_points as u64;
    let mut words: u64 = 2 * n;
    if kind == PointKind::Z {
        words = words + n + 2;
    }
    if kind != PointKind::Plain && is_m_used {
        words = words + n + 2;
    }
    36 + 8 * words
}

/// What the fixed layout of a multipoint content holds, before points are built.
pub struct PointsFrame {
    pub bbox: BBox,
    pub n: nat,
    pub with_m: bool,
    pub words: Seq<u64>,
}

/// Reading the content `s` of a multipoint record whose content size is `rs`.
#[verifier::opaque]
pub open spec fn spec_read_points_frame(kind: PointKind, s: Seq<u8>, rs: int) -> Result<
    PointsFrame,
    Error,
> {
    if s.len() < 36 {
        Err(Error::IoError)
    } else {
        let n = le_u32(s.subrange(32, 36)) as i32;
        let size_without = multipoint_size(kind, n as int, false);
        if n < 0 || (rs != multipoint_size(kind, n as int, true) && rs != size_without) {
            Err(Error::InvalidShapeRecordSize)
        } else if s.len() < rs {
            Err(Error::IoError)
        } else {
            let with_m = rs != size_without;
            Ok(
                PointsFrame {
                    bbox: BBox {
                        xmin: word_at(s, 0),
                        ymin: word_at(s, 8),
                        xmax: word_at(s, 16),
                        ymax: word_at(s, 24),
                    },
                    n: n as nat,
                    with_m,
                    words: le_u64s_at(s, 36, tail_len(kind, n as int, with_m) as nat),
                },
            )
        }
    }
}

fn read_points_frame(kind: PointKind, src: &[u8], record_size: i32) -> (r: Result<
    (BBox, usize, bool, Vec<u64>),
    Error,
>)
    ensures
        match r {
            Ok((bbox, n, with_m, words)) => spec_read_points_frame(kind, src@, record_size as int)
                == Ok::<PointsFrame, Error>(PointsFrame { bbox, n: n as nat, with_m, words: words@ })
                && words@.len() == tail_len(kind, n as int, with_m),
            Err(e) => spec_read_points_frame(kind, src@, record_size as int) == Err::<
                PointsFrame,
                Error,
            >(e),
        },
{
    reveal(spec_read_points_frame);
    if src.len() < 36 {
        return Err(Error::IoError);
    }
    let n = read_le_u32(src, 32) as i32;
    if n < 0 {
        return Err(Error::InvalidShapeRecordSize);
    }
    let size_with = multipoint_size_of_record(kind, n, true);
    let size_without = multipoint_size_of_record(kind, n, false);
    if record_size < 0 || (record_size as u64 != size_with && record_size as u64 != size_without) {
        return Err(Error::InvalidShapeRecordSize);
    }
    if src.len() < record_size as usize {
        return Err(Error::IoError);
    }
    let with_m = record_size as u64 != size_without;
    let n_words = ((multipoint_size_of_record(kind, n, with_m) - 36) / 8) as usize;
    let words = read_le_u64s(src, 36, n_words);
    let bbox = BBox {
        xmin: read_le_u64(src, 0),
        ymin: read_le_u64(src, 8),
        xmax: read_le_u64(src, 16),
        ymax: read_le_u64(src, 24),
    };
    Ok((bbox, n as usize, with_m, words))
}

/// A set of points.
#[derive(Debug, Clone, PartialEq)]
pub struct GenericMultipoint<PointType> {
    pub bbox: BBox,
    pub points: Vec<PointType>,
}

pub type Multipoint = GenericMultipoint<Point>;

pub type MultipointM = GenericMultipoint<PointM>;

pub type MultipointZ = GenericMultipoint<PointZ>;

impl<PointType> View for GenericMultipoint<PointType> {
    type V = (BBox, Seq<PointType>);

    open spec fn view(&self) -> (BBox, Seq<PointType>) {
        (self.bbox, self.points@)
    }
}

impl<PointType: HasXY> GenericMultipoint<PointType> {
    /// A multipoint over `points`, with its bounding box computed from them.
    pub fn new(points: Vec<PointType>) -> (r: Self)
        ensures
            r.bbox == bbox_of(points@),
            r.points@ == points@,
    {
        let bbox = BBox::from_points(&points);
        GenericMultipoint { bbox, points }
    }
}

pub open spec fn spec_read_multipoint(s: Seq<u8>, rs: int) -> Result<(BBox, Seq<Point>), Error> {
    match spec_read_points_frame(PointKind::Plain, s, rs) {
        Ok(f) => Ok((f.bbox, points_plain(f.words, f.n))),
        Err(e) => Err(e),
    }
}

pub open spec fn spec_read_multipoint_m(s: Seq<u8>, rs: int) -> Result<(BBox, Seq<PointM>), Error> {
    match spec_read_points_frame(PointKind::M, s, rs) {
        Ok(f) => Ok((f.bbox, points_m(f.words, f.n, f.with_m))),
        Err(e) => Err(e),
    }
}

pub open spec fn spec_read_multipoint_z(s: Seq<u8>, rs: int) -> Result<(BBox, Seq<PointZ>), Error> {
    match spec_read_points_frame(PointKind::Z, s, rs) {
        Ok(f) => Ok((f.bbox, points_z(f.words, f.n, f.with_m))),
        Err(e) => Err(e),
    }
}

/// The content of a multipoint: box recomputed from the points, count, then
/// the words of `tail`.
#[verifier::opaque]
pub open spec fn points_content_bytes<P: HasXY>(pts: Seq<P>, tail: Seq<u64>) -> Seq<u8> {
    le_u64s_bytes(bbox_words(bbox_of(pts))) + le_u32_bytes(pts.len() as u32) + le_u64s_bytes(tail)
}

/// A multipoint of this size can be framed as a record.
pub open spec fn fits_points_record(kind: PointKind, n: int) -> bool {
    multipoint_size(kind, n, true) + 4 <= i32::MAX
}

fn write_points_content<P: HasXY>(dest: &mut Vec<u8>, pts: &Vec<P>, tail: &Vec<u64>)
    requires
        pts@.len() <= i32::MAX,
    ensures
        final(dest)@ == old(dest)@ + points_content_bytes(pts@, tail@),
{
    let bbox = BBox::from_points(pts);
    let corners: [u64; 4] = [bbox.xmin, bbox.ymin, bbox.xmax, bbox.ymax];
    assert(corners@ =~= bbox_words(bbox_of(pts@)));
    write_le_u64s(dest, &corners);
    write_le_u32(dest, pts.len() as u32);
    write_le_u64s(dest, tail.as_slice());
    reveal(points_content_bytes);
}

pub(crate) proof fn lemma_points_content_len<P: HasXY>(pts: Seq<P>, tail: Seq<u64>)
    ensures
        points_content_bytes(pts, tail).len() == 36 + 8 * tail.len(),
{
    reveal(points_content_bytes);
    lemma_le_u64s_len(bbox_words(bbox_of(pts)));
    lemma_le_u64s_len(tail);
}

/// The fixed layout of an encoded multipoint content reads back as it was written.
proof fn lemma_read_points_frame_of_content<P: HasXY>(
    kind: PointKind,
    pts: Seq<P>,
    tail: Seq<u64>,
    with_m: bool,
    rest: Seq<u8>,
)
    requires
        fits_points_record(kind, pts.len() as int),
        tail.len() == tail_len(kind, pts.len() as int, with_m),
        kind == PointKind::Plain ==> !with_m,
    ensures
        spec_read_points_frame(
            kind,
            points_content_bytes(pts, tail) + rest,
            multipoint_size(kind, pts.len() as int, with_m),
        ) == Ok::<PointsFrame, Error>(
            PointsFrame { bbox: bbox_of(pts), n: pts.len(), with_m, words: tail },
        ),
{
    reveal(points_content_bytes);
    reveal(spec_read_points_frame);
    let s = points_content_bytes(pts, tail) + rest;
    let n = pts.len() as int;
    let bw = bbox_words(bbox_of(pts));
    lemma_le_u64s_len(bw);
    lemma_le_u64s_len(tail);
    assert(s.subrange(0, 32) =~= le_u64s_bytes(bw));
    assert(s.subrange(32, 36) =~= le_u32_bytes(n as u32));
    assert(s.subrange(36, 36 + 8 * (tail.len() as int)) =~= le_u64s_bytes(tail));
    lemma_le_u32_round_trip(n as u32);
    lemma_le_u64s_read_back(s, 0, bw);
    lemma_le_u64s_read_back(s, 36, tail);
    let words4 = le_u64s_at(s, 0, 4);
    assert(word_at(s, 0) == words4[0] && word_at(s, 8) == words4[1]);
    assert(word_at(s, 16) == words4[2] && word_at(s, 24) == words4[3]);
}


impl GenericMultipoint<Point> {
    /// Reads the content of a Multipoint record of `record_size` bytes from the
    /// start of `src`.
    pub fn read_shape_content(src: &[u8], record_size: i32) -> (r: Result<Multipoint, Error>)
        ensures
            match r {
                Ok(p) => spec_read_multipoint(src@, record_size as int) == Ok::<(BBox, Seq<Point>), Error>(p@),
                Err(e) => spec_read_multipoint(src@, record_size as int) == Err::<(BBox, Seq<Point>), Error>(e),
            },
    {
        let (bbox, n, _with_m, words) = read_points_frame(PointKind::Plain, src, record_size)?;
        let points = build_points_plain(&words, n);
        Ok(GenericMultipoint { bbox, points })
    }

    /// The content size written for this shape.
    pub fn size_in_bytes(&self) -> (r: u64)
        requires
            fits_points_record(PointKind::Plain, self.points@.len() as int),
        ensures
            r == multipoint_size(PointKind::Plain, self.points@.len() as int, true),
    {
        multipoint_size_of_record(PointKind::Plain, self.points.len() as i32, true)
    }

    /// Appends the content of this shape to `dest`, with its box and ranges
    /// recomputed from the points.
    pub fn write_to(&self, dest: &mut Vec<u8>)
        requires
            fits_points_record(PointKind::Plain, self.points@.len() as int),
        ensures
            final(dest)@ == old(dest)@ + points_content_bytes(self.points@, tail_plain(self.points@)),
    {
        let tail = tail_of_plain(&self.points);
        write_points_content(dest, &self.points, &tail);
    }
}

/// Encoding a Multipoint whose box is that of its points and decoding the bytes,
/// whatever follows them, gives it back.
pub proof fn lemma_multipoint_round_trip(p: Multipoint, rest: Seq<u8>)
    requires
        p.bbox == bbox_of(p.points@),
        fits_points_record(PointKind::Plain, p.points@.len() as int),
    ensures
        spec_read_multipoint(
            points_content_bytes(p.points@, tail_plain(p.points@)) + rest,
            multipoint_size(PointKind::Plain, p.points@.len() as int, true),
        ) == Ok::<(BBox, Seq<Point>), Error>(p@),
{
    let pts = p.points@;
    let n = pts.len();
    lemma_xy_words(pts);
    let tail = tail_plain(pts);
    lemma_read_points_frame_of_content(PointKind::Plain, pts, tail, false, rest);
    assert(points_plain(tail, n) =~= pts);
}

impl GenericMultipoint<PointM> {
    /// Reads the content of a MultipointM record of `record_size` bytes from the
    /// start of `src`. Without the m block every measure is `NO_DATA`.
    pub fn read_shape_content(src: &[u8], record_size: i32) -> (r: Result<MultipointM, Error>)
        ensures
            match r {
                Ok(p) => spec_read_multipoint_m(src@, record_size as int) == Ok::<(BBox, Seq<PointM>), Error>(p@),
                Err(e) => spec_read_multipoint_m(src@, record_size as int) == Err::<(BBox, Seq<PointM>), Error>(e),
            },
    {
        let (bbox, n, with_m, words) = read_points_frame(PointKind::M, src, record_size)?;
        let points = build_points_m(&words, n, with_m);
        Ok(GenericMultipoint { bbox, points })
    }

    /// The content size written for this shape.
    pub fn size_in_bytes(&self) -> (r: u64)
        requires
            fits_points_record(PointKind::M, self.points@.len() as int),
        ensures
            r == multipoint_size(PointKind::M, self.points@.len() as int, true),
    {
        multipoint_size_of_record(PointKind::M, self.points.len() as i32, true)
    }

    /// Appends the content of this shape to `dest`, with its box and ranges
    /// recomputed from the points.
    pub fn write_to(&self, dest: &mut Vec<u8>)
        requires
            fits_points_record(PointKind::M, self.points@.len() as int),
        ensures
            final(dest)@ == old(dest)@ + points_content_bytes(self.points@, tail_m(self.points@)),
    {
        let tail = tail_of_m(&self.points);
        write_points_content(dest, &self.points, &tail);
    }
}

/// Encoding a MultipointM whose box is that of its points and decoding the bytes,
/// whatever follows them, gives it back.
#[verifier::rlimit(30)]
pub proof fn lemma_multipoint_m_round_trip(p: MultipointM, rest: Seq<u8>)
    requires
        p.bbox == bbox_of(p.points@),
        fits_points_record(PointKind::M, p.points@.len() as int),
    ensures
        spec_read_multipoint_m(
            points_content_bytes(p.points@, tail_m(p.points@)) + rest,
            multipoint_size(PointKind::M, p.points@.len() as int, true),
        ) == Ok::<(BBox, Seq<PointM>), Error>(p@),
{
    let pts = p.points@;
    let n = pts.len();
    lemma_xy_words(pts);
    let tail = tail_m(pts);
    lemma_read_points_frame_of_content(PointKind::M, pts, tail, true, rest);
    assert forall|i: int| 0 <= i < n implies #[trigger] points_m(tail, n, true)[i] == pts[i] by {
        assert(tail[2 * i] == xy_words(pts)[2 * i]);
        assert(tail[2 * i + 1] == xy_words(pts)[2 * i + 1]);
        assert(tail[2 * n + 2 + i] == ms_of_m(pts)[i]);
    }
    assert(points_m(tail, n, true) =~= pts);
}

impl GenericMultipoint<PointZ> {
    /// Reads the content of a MultipointZ record of `record_size` bytes from the
    /// start of `src`. Without the m block every measure is `NO_DATA`.
    pub fn read_shape_content(src: &[u8], record_size: i32) -> (r: Result<MultipointZ, Error>)
        ensures
            match r {
                Ok(p) => spec_read_multipoint_z(src@, record_size as int) == Ok::<(BBox, Seq<PointZ>), Error>(p@),
                Err(e) => spec_read_multipoint_z(src@, record_size as int) == Err::<(BBox, Seq<PointZ>), Error>(e),
            },
    {
        let (bbox, n, with_m, words) = read_points_frame(PointKind::Z, src, record_size)?;
        let points = build_points_z(&words, n, with_m);
        Ok(GenericMultipoint { bbox, points })
    }

    /// The content size written for this shape.
    pub fn size_in_bytes(&self) -> (r: u64)
        requires
            fits_points_record(PointKind::Z, self.points@.len() as int),
        ensures
            r == multipoint_size(PointKind::Z, self.points@.len() as int, true),
    {
        multipoint_size_of_record(PointKind::Z, self.points.len() as i32, true)
    }

    /// Appends the content of this shape to `dest`, with its box and ranges
    /// recomputed from the points.
    pub fn write_to(&self, dest: &mut Vec<u8>)
        requires
            fits_points_record(PointKind::Z, self.points@.len() as int),
        ensures
            final(dest)@ == old(dest)@ + points_content_bytes(self.points@, tail_z(self.points@)),
    {
        let tail = tail_of_z(&self.points);
        write_points_content(dest, &self.points, &tail);
    }
}

/// Encoding a MultipointZ whose box is that of its points and decoding the bytes,
/// whatever follows them, gives it back.
#[verifier::rlimit(30)]
pub proof fn lemma_multipoint_z_round_trip(p: MultipointZ, rest: Seq<u8>)
    requires
        p.bbox == bbox_of(p.points@),
        fits_points_record(PointKind::Z, p.points@.len() as int),
    ensures
        spec_read_multipoint_z(
            points_content_bytes(p.points@, tail_z(p.points@)) + rest,
            multipoint_size(PointKind::Z, p.points@.len() as int, true),
        ) == Ok::<(BBox, Seq<PointZ>), Error>(p@),
{
    let pts = p.points@;
    let n = pts.len();
    lemma_xy_words(pts);
    let tail = tail_z(pts);
    lemma_read_points_frame_of_content(PointKind::Z, pts, tail, true, rest);
    assert forall|i: int| 0 <= i < n implies #[trigger] points_z(tail, n, true)[i] == pts[i] by {
        assert(tail[2 * i] == xy_words(pts)[2 * i]);
        assert(tail[2 * i + 1] == xy_words(pts)[2 * i + 1]);
        assert(tail[2 * n + 2 + i] == zs_of(pts)[i]);
        assert(tail[3 * n + 4 + i] == ms_of_z(pts)[i]);
    }
    assert(points_z(tail, n, true) =~= pts);
}


/// A multipoint content whose size matches neither the size with the m block
/// nor the size without it, for the count it declares, is refused with
/// `InvalidShapeRecordSize`.
pub proof fn lemma_wrong_points_record_size_rejected(kind: PointKind, s: Seq<u8>, rs: int)
    requires
        s.len() >= 36,
        rs != multipoint_size(kind, le_u32(s.subrange(32, 36)) as i32 as int, true),
        rs != multipoint_size(kind, le_u32(s.subrange(32, 36)) as i32 as int, false),
    ensures
        spec_read_points_frame(kind, s, rs) == Err::<PointsFrame, Error>(
            Error::InvalidShapeRecordSize,
        ),
{
    reveal(spec_read_points_frame);
}

} // verus!
