//! Polylines and polygons, in plain, measured (M) and 3-D (Z) flavours.
//!
//! The six flavours share one content layout: a bounding box, the counts of
//! parts and points, the parts, the points' x and y, then for Z a z range and
//! the z values, then for M and Z an optional m range and the m values. After
//! the parts everything is a little-endian 64-bit word.

use vstd::prelude::*;
use crate::bytes::{
    le_u32, le_u32_bytes, le_u32s_at, le_u32s_bytes, le_u64s_at, le_u64s_bytes, read_le_u32,
    lemma_i32_u32_round_trip, lemma_le_u32_round_trip, lemma_le_u32s_len,
    lemma_le_u32s_read_back, lemma_le_u64s_len, lemma_le_u64s_read_back, read_le_u32s, read_le_u64,
    read_le_u64s, word_at, write_le_u32, write_le_u32s, write_le_u64s,
};
use crate::error::Error;
use crate::point::{
    bbox_of, extreme_or_zero, find_extreme, ms_of_m, ms_of_z, zs_of, BBox, HasXY, Point, PointM,
    PointZ, NO_DATA,
};

verus! {

/// Which coordinates a point carries beyond x and y.
#[derive(Debug, Clone, Copy, PartialEq, Eq, Structural)]
pub enum PointKind {
    Plain,
    M,
    Z,
}

/// The number of words after the parts: x and y of each point, the z block
/// for Z, and the m block for M and Z when it is present.
pub open spec fn tail_len(kind: PointKind, n: int, with_m: bool) -> int {
    2 * n + (if kind == PointKind::Z {
        n + 2
    } else {
        0
    }) + (if kind != PointKind::Plain && with_m {
        n + 2
    } else {
        0
    })
}

/// The content size in bytes of a shape with `n` points in `np` parts.
pub open spec fn content_size(kind: PointKind, n: int, np: int, with_m: bool) -> int {
    40 + 4 * np + 8 * tail_len(kind, n, with_m)
}

/// The content size in bytes of a shape with `num_points` points in
/// `num_parts` parts, with or without the m block.
pub fn size_of_record(kind: PointKind, num_points: i32, num_parts: i32, is_m_used: bool) -> (r: u64)
    requires
        num_points >= 0,
        num_parts >= 0,
    ensures
        r == content_size(kind, num_points as int, num_parts as int, is_m_used),
{
    let n = num_points as u64;
    let mut words: u64 = 2 * n;
    if kind == PointKind::Z {
        words = words + n + 2;
    }
    if kind != PointKind::Plain && is_m_used {
        words = words + n + 2;
    }
    40 + 4 * (num_parts as u64) + 8 * words
}

/// `parts` is non-empty, starts at 0, strictly increases, and indexes into `n` points.
pub open spec fn parts_valid(parts: Seq<i32>, n: int) -> bool {
    &&& parts.len() > 0
    &&& parts[0] == 0
    &&& forall|k: int| 0 < k < parts.len() ==> #[trigger] parts[k] > parts[k - 1]
    &&& forall|k: int| 0 <= k < parts.len() ==> 0 <= #[trigger] parts[k] < n
}

/// Whether `parts` is a valid parts array for `n` points.
pub fn parts_array_valid(parts: &Vec<i32>, n: usize) -> (r: bool)
    ensures
        r == parts_valid(parts@, n as int),
{
    if parts.len() == 0 || parts[0] != 0 {
        return false;
    }
    let mut i: usize = 0;
    while i < parts.len()
        invariant
            i <= parts@.len(),
            parts@.len() > 0,
            parts@[0] == 0,
            forall|k: int| 0 < k < i ==> #[trigger] parts@[k] > parts@[k - 1],
            forall|k: int| 0 <= k < i ==> 0 <= #[trigger] parts@[k] < n,
        decreases parts@.len() - i,
    {
        let p = parts[i];
        if p < 0 || p as usize >= n {
            return false;
        }
        if i > 0 && p <= parts[i - 1] {
            return false;
        }
        i = i + 1;
    }
    true
}

/// The parts as they stand in the content.
pub open spec fn parts_from_words(ws: Seq<u32>) -> Seq<i32> {
    ws.map_values(|w: u32| w as i32)
}

/// What the fixed layout of a content holds, before points are built.
pub struct Frame {
    pub bbox: BBox,
    pub parts: Seq<i32>,
    pub n: nat,
    pub with_m: bool,
    pub words: Seq<u64>,
}

/// Reading the content `s` of a record whose content size is `rs`.
#[verifier::opaque]
pub open spec fn spec_read_frame(kind: PointKind, s: Seq<u8>, rs: int) -> Result<Frame, Error> {
    if s.len() < 40 {
        Err(Error::IoError)
    } else {
        let np = le_u32(s.subrange(32, 36)) as i32;
        let n = le_u32(s.subrange(36, 40)) as i32;
        let size_with = content_size(kind, n as int, np as int, true);
        let size_without = content_size(kind, n as int, np as int, false);
        if np < 0 || n < 0 || (rs != size_with && rs != size_without) {
            Err(Error::InvalidShapeRecordSize)
        } else if s.len() < rs {
            Err(Error::IoError)
        } else {
            let parts = parts_from_words(le_u32s_at(s, 40, np as nat));
            let with_m = rs != size_without;
            if !parts_valid(parts, n as int) {
                Err(Error::MalformedShape)
            } else {
                Ok(
                    Frame {
                        bbox: BBox {
                            xmin: word_at(s, 0),
                            ymin: word_at(s, 8),
                            xmax: word_at(s, 16),
                            ymax: word_at(s, 24),
                        },
                        parts,
                        n: n as nat,
                        with_m,
                        words: le_u64s_at(s, 40 + 4 * np, tail_len(kind, n as int, with_m) as nat),
                    },
                )
            }
        }
    }
}

fn read_frame(kind: PointKind, src: &[u8], record_size: i32) -> (r: Result<
    (BBox, Vec<i32>, usize, bool, Vec<u64>),
    Error,
>)
    ensures
        match r {
            Ok((bbox, parts, n, with_m, words)) => spec_read_frame(kind, src@, record_size as int)
                == Ok::<Frame, Error>(
                Frame { bbox, parts: parts@, n: n as nat, with_m, words: words@ },
            ) && words@.len() == tail_len(kind, n as int, with_m) && parts_valid(parts@, n as int),
            Err(e) => spec_read_frame(kind, src@, record_size as int) == Err::<Frame, Error>(e),
        },
{
    reveal(spec_read_frame);
    if src.len() < 40 {
        return Err(Error::IoError);
    }
    let np = read_le_u32(src, 32) as i32;
    let n = read_le_u32(src, 36) as i32;
    if np < 0 || n < 0 {
        return Err(Error::InvalidShapeRecordSize);
    }
    let size_with = size_of_record(kind, n, np, true);
    let size_without = size_of_record(kind, n, np, false);
    if record_size < 0 || (record_size as u64 != size_with && record_size as u64 != size_without) {
        return Err(Error::InvalidShapeRecordSize);
    }
    if src.len() < record_size as usize {
        return Err(Error::IoError);
    }
    let words32 = read_le_u32s(src, 40, np as usize);
    let mut parts: Vec<i32> = Vec::new();
    let mut i: usize = 0;
    while i < words32.len()
        invariant
            i <= words32@.len(),
            parts@ =~= parts_from_words(words32@.take(i as int)),
        decreases words32@.len() - i,
    {
        parts.push(words32[i] as i32);
        i = i + 1;
        assert(parts@ =~= parts_from_words(words32@.take(i as int)));
    }
    assert(words32@.take(words32@.len() as int) =~= words32@);
    if !parts_array_valid(&parts, n as usize) {
        return Err(Error::MalformedShape);
    }
    let with_m = record_size as u64 != size_without;
    let n_words = ((size_of_record(kind, n, np, with_m) - 40 - 4 * (np as u64)) / 8) as usize;
    assert(n_words == tail_len(kind, n as int, with_m));
    let words = read_le_u64s(src, 40 + 4 * (np as usize), n_words);
    let bbox = BBox {
        xmin: read_le_u64(src, 0),
        ymin: read_le_u64(src, 8),
        xmax: read_le_u64(src, 16),
        ymax: read_le_u64(src, 24),
    };
    Ok((bbox, parts, n as usize, with_m, words))
}


/// Where part `k` ends: the next part's start, or the number of points.
pub open spec fn part_end(parts: Seq<i32>, n: int, k: int) -> int {
    if k + 1 < parts.len() {
        parts[k + 1] as int
    } else {
        n
    }
}

/// Part `k` ends on the point it starts with.
pub open spec fn ring_closes<P>(parts: Seq<i32>, pts: Seq<P>, k: int) -> bool {
    pts[parts[k] as int] == pts[part_end(parts, pts.len() as int, k) - 1]
}

/// Every part is a closed ring.
pub open spec fn rings_closed<P>(parts: Seq<i32>, pts: Seq<P>) -> bool {
    forall|k: int| 0 <= k < parts.len() ==> #[trigger] ring_closes(parts, pts, k)
}

/// Whether every part of a valid parts array is a closed ring.
pub fn rings_are_closed<P: HasXY>(parts: &Vec<i32>, pts: &Vec<P>) -> (r: bool)
    requires
        parts_valid(parts@, pts@.len() as int),
    ensures
        r == rings_closed(parts@, pts@),
{
    let mut k: usize = 0;
    while k < parts.len()
        invariant
            k <= parts@.len(),
            parts_valid(parts@, pts@.len() as int),
            forall|j: int| 0 <= j < k ==> #[trigger] ring_closes(parts@, pts@, j),
        decreases parts@.len() - k,
    {
        let start = parts[k] as usize;
        let end = if k + 1 < parts.len() {
            parts[k + 1] as usize
        } else {
            pts.len()
        };
        let first = &pts[start];
        let last = &pts[end - 1];
        if !first.same_as(last) {
            assert(!ring_closes(parts@, pts@, k as int));
            return false;
        }
        k = k + 1;
    }
    true
}

/// A copy of `points[start..end]`.
fn copy_range<P: Copy>(points: &Vec<P>, start: usize, end: usize) -> (r: Vec<P>)
    requires
        start <= end <= points@.len(),
    ensures
        r@ == points@.subrange(start as int, end as int),
{
    let mut r: Vec<P> = Vec::new();
    let mut i: usize = start;
    while i < end
        invariant
            start <= i <= end,
            end <= points@.len(),
            r@ == points@.subrange(start as int, i as int),
        decreases end - i,
    {
        r.push(points[i]);
        i = i + 1;
        assert(r@ =~= points@.subrange(start as int, i as int));
    }
    r
}

/// The points of each part, in order: part `k` runs from its start to the
/// next part's start, or to the end of the points.
pub fn part_points<P: Copy>(points: &Vec<P>, parts: &Vec<i32>) -> (r: Vec<Vec<P>>)
    requires
        parts_valid(parts@, points@.len() as int),
    ensures
        r@.len() == parts@.len(),
        forall|k: int|
            0 <= k < parts@.len() ==> #[trigger] r@[k]@ == points@.subrange(
                parts@[k] as int,
                part_end(parts@, points@.len() as int, k),
            ),
{
    let mut r: Vec<Vec<P>> = Vec::new();
    let mut k: usize = 0;
    while k < parts.len()
        invariant
            k <= parts@.len(),
            parts_valid(parts@, points@.len() as int),
            r@.len() == k,
            forall|j: int|
                0 <= j < k ==> #[trigger] r@[j]@ == points@.subrange(
                    parts@[j] as int,
                    part_end(parts@, points@.len() as int, j),
                ),
        decreases parts@.len() - k,
    {
        let start = parts[k] as usize;
        let end = if k + 1 < parts.len() {
            parts[k + 1] as usize
        } else {
            points.len()
        };
        let part = copy_range(points, start, end);
        r.push(part);
        k = k + 1;
    }
    r
}

/// A sequence of linestrings; `parts` holds where each one starts in `points`.
#[derive(Debug, Clone, PartialEq)]
pub struct GenericPolyline<PointType> {
    pub bbox: BBox,
    pub points: Vec<PointType>,
    pub parts: Vec<i32>,
}

/// A set of rings; `parts` holds where each one starts in `points`.
#[derive(Debug, Clone, PartialEq)]
pub struct GenericPolygon<PointType> {
    pub bbox: BBox,
    pub points: Vec<PointType>,
    pub parts: Vec<i32>,
}

pub type Polyline = GenericPolyline<Point>;

pub type PolylineM = GenericPolyline<PointM>;

pub type PolylineZ = GenericPolyline<PointZ>;

pub type Polygon = GenericPolygon<Point>;

pub type PolygonM = GenericPolygon<PointM>;

pub type PolygonZ = GenericPolygon<PointZ>;

impl<PointType> View for GenericPolyline<PointType> {
    type V = (BBox, Seq<i32>, Seq<PointType>);

    open spec fn view(&self) -> (BBox, Seq<i32>, Seq<PointType>) {
        (self.bbox, self.parts@, self.points@)
    }
}

impl<PointType> View for GenericPolygon<PointType> {
    type V = (BBox, Seq<i32>, Seq<PointType>);

    open spec fn view(&self) -> (BBox, Seq<i32>, Seq<PointType>) {
        (self.bbox, self.parts@, self.points@)
    }
}

pub open spec fn points_plain(words: Seq<u64>, n: nat) -> Seq<Point> {
    Seq::new(n, |i: int| Point { x: words[2 * i], y: words[2 * i + 1] })
}

pub open spec fn points_m(words: Seq<u64>, n: nat, with_m: bool) -> Seq<PointM> {
    Seq::new(
        n,
        |i: int|
            PointM {
                x: words[2 * i],
                y: words[2 * i + 1],
                m: if with_m {
                    words[2 * n + 2 + i]
                } else {
                    NO_DATA
                },
            },
    )
}

pub open spec fn points_z(words: Seq<u64>, n: nat, with_m: bool) -> Seq<PointZ> {
    Seq::new(
        n,
        |i: int|
            PointZ {
                x: words[2 * i],
                y: words[2 * i + 1],
                z: words[2 * n + 2 + i],
                m: if with_m {
                    words[3 * n + 4 + i]
                } else {
                    NO_DATA
                },
            },
    )
}

pub(crate) fn build_points_plain(words: &Vec<u64>, n: usize) -> (r: Vec<Point>)
    requires
        words@.len() == tail_len(PointKind::Plain, n as int, false),
    ensures
        r@ == points_plain(words@, n as nat),
{
    let len = words.len();
    let mut r: Vec<Point> = Vec::new();
    let mut i: usize = 0;
    while i < n
        invariant
            i <= n,
            len == words@.len(),
            words@.len() == 2 * n,
            r@ =~= points_plain(words@, n as nat).take(i as int),
        decreases n - i,
    {
        r.push(Point { x: words[2 * i], y: words[2 * i + 1] });
        i = i + 1;
        assert(r@ =~= points_plain(words@, n as nat).take(i as int));
    }
    r
}

pub(crate) fn build_points_m(words: &Vec<u64>, n: usize, with_m: bool) -> (r: Vec<PointM>)
    requires
        words@.len() == tail_len(PointKind::M, n as int, with_m),
    ensures
        r@ == points_m(words@, n as nat, with_m),
{
    let len = words.len();
    let mut r: Vec<PointM> = Vec::new();
    let mut i: usize = 0;
    while i < n
        invariant
            i <= n,
            len == words@.len(),
            words@.len() == tail_len(PointKind::M, n as int, with_m),
            r@ =~= points_m(words@, n as nat, with_m).take(i as int),
        decreases n - i,
    {
        let m = if with_m {
            words[2 * n + 2 + i]
        } else {
            NO_DATA
        };
        r.push(PointM { x: words[2 * i], y: words[2 * i + 1], m });
        i = i + 1;
        assert(r@ =~= points_m(words@, n as nat, with_m).take(i as int));
    }
    r
}

pub(crate) fn build_points_z(words: &Vec<u64>, n: usize, with_m: bool) -> (r: Vec<PointZ>)
    requires
        words@.len() == tail_len(PointKind::Z, n as int, with_m),
    ensures
        r@ == points_z(words@, n as nat, with_m),
{
    let len = words.len();
    let mut r: Vec<PointZ> = Vec::new();
    let mut i: usize = 0;
    while i < n
        invariant
            i <= n,
            len == words@.len(),
            words@.len() == tail_len(PointKind::Z, n as int, with_m),
            r@ =~= points_z(words@, n as nat, with_m).take(i as int),
        decreases n - i,
    {
        let m = if with_m {
            words[3 * n + 4 + i]
        } else {
            NO_DATA
        };
        r.push(PointZ { x: words[2 * i], y: words[2 * i + 1], z: words[2 * n + 2 + i], m });
        i = i + 1;
        assert(r@ =~= points_z(words@, n as nat, with_m).take(i as int));
    }
    r
}

/// Reading the content of a Polyline record.
pub open spec fn spec_read_polyline(s: Seq<u8>, rs: int) -> Result<(BBox, Seq<i32>, Seq<Point>), Error> {
    match spec_read_frame(PointKind::Plain, s, rs) {
        Ok(f) => Ok((f.bbox, f.parts, points_plain(f.words, f.n))),
        Err(e) => Err(e),
    }
}

/// Reading the content of a PolylineM record.
pub open spec fn spec_read_polyline_m(s: Seq<u8>, rs: int) -> Result<(BBox, Seq<i32>, Seq<PointM>), Error> {
    match spec_read_frame(PointKind::M, s, rs) {
        Ok(f) => Ok((f.bbox, f.parts, points_m(f.words, f.n, f.with_m))),
        Err(e) => Err(e),
    }
}

/// Reading the content of a PolylineZ record.
pub open spec fn spec_read_polyline_z(s: Seq<u8>, rs: int) -> Result<(BBox, Seq<i32>, Seq<PointZ>), Error> {
    match spec_read_frame(PointKind::Z, s, rs) {
        Ok(f) => Ok((f.bbox, f.parts, points_z(f.words, f.n, f.with_m))),
        Err(e) => Err(e),
    }
}

/// A polyline read as a polygon: refused unless every ring closes.
pub open spec fn as_polygon<P: HasXY>(r: Result<(BBox, Seq<i32>, Seq<P>), Error>) -> Result<(BBox, Seq<i32>, Seq<P>), Error> {
    match r {
        Ok(v) => if rings_closed(v.1, v.2) {
            Ok(v)
        } else {
            Err(Error::MalformedShape)
        },
        Err(e) => Err(e),
    }
}


impl<PointType: HasXY> GenericPolyline<PointType> {
    /// A polyline over `points`, with its bounding box computed from them.
    pub fn new(points: Vec<PointType>, parts: Vec<i32>) -> (r: Self)
        ensures
            r.bbox == bbox_of(points@),
            r.points@ == points@,
            r.parts@ == parts@,
    {
        let bbox = BBox::from_points(&points);
        GenericPolyline { bbox, points, parts }
    }
}

impl<PointType: HasXY> GenericPolygon<PointType> {
    /// A polygon over `points`, with its bounding box computed from them.
    pub fn new(points: Vec<PointType>, parts: Vec<i32>) -> (r: Self)
        ensures
            r.bbox == bbox_of(points@),
            r.points@ == points@,
            r.parts@ == parts@,
    {
        let line = GenericPolyline::new(points, parts);
        GenericPolygon { bbox: line.bbox, points: line.points, parts: line.parts }
    }
}

impl GenericPolyline<Point> {
    /// Reads the content of a Polyline record of `record_size` bytes from the
    /// start of `src`.
    pub fn read_shape_content(src: &[u8], record_size: i32) -> (r: Result<Polyline, Error>)
        ensures
            r is Ok ==> parts_valid(r->Ok_0.parts@, r->Ok_0.points@.len() as int),
            match r {
                Ok(p) => spec_read_polyline(src@, record_size as int) == Ok::<
                    (BBox, Seq<i32>, Seq<Point>),
                    Error,
                >(p@),
                Err(e) => spec_read_polyline(src@, record_size as int) == Err::<
                    (BBox, Seq<i32>, Seq<Point>),
                    Error,
                >(e),
            },
    {
        let (bbox, parts, n, _with_m, words) = read_frame(PointKind::Plain, src, record_size)?;
        let points = build_points_plain(&words, n);
        Ok(GenericPolyline { bbox, points, parts })
    }
}

impl GenericPolyline<PointM> {
    /// Reads the content of a PolylineM record of `record_size` bytes from the
    /// start of `src`; without the m block every measure is `NO_DATA`.
    pub fn read_shape_content(src: &[u8], record_size: i32) -> (r: Result<PolylineM, Error>)
        ensures
            r is Ok ==> parts_valid(r->Ok_0.parts@, r->Ok_0.points@.len() as int),
            match r {
                Ok(p) => spec_read_polyline_m(src@, record_size as int) == Ok::<
                    (BBox, Seq<i32>, Seq<PointM>),
                    Error,
                >(p@),
                Err(e) => spec_read_polyline_m(src@, record_size as int) == Err::<
                    (BBox, Seq<i32>, Seq<PointM>),
                    Error,
                >(e),
            },
    {
        let (bbox, parts, n, with_m, words) = read_frame(PointKind::M, src, record_size)?;
        let points = build_points_m(&words, n, with_m);
        Ok(GenericPolyline { bbox, points, parts })
    }
}

impl GenericPolyline<PointZ> {
    /// Reads the content of a PolylineZ record of `record_size` bytes from the
    /// start of `src`; without the m block every measure is `NO_DATA`.
    pub fn read_shape_content(src: &[u8], record_size: i32) -> (r: Result<PolylineZ, Error>)
        ensures
            r is Ok ==> parts_valid(r->Ok_0.parts@, r->Ok_0.points@.len() as int),
            match r {
                Ok(p) => spec_read_polyline_z(src@, record_size as int) == Ok::<
                    (BBox, Seq<i32>, Seq<PointZ>),
                    Error,
                >(p@),
                Err(e) => spec_read_polyline_z(src@, record_size as int) == Err::<
                    (BBox, Seq<i32>, Seq<PointZ>),
                    Error,
                >(e),
            },
    {
        let (bbox, parts, n, with_m, words) = read_frame(PointKind::Z, src, record_size)?;
        let points = build_points_z(&words, n, with_m);
        Ok(GenericPolyline { bbox, points, parts })
    }
}

impl GenericPolygon<Point> {
    /// Reads the content of a Polygon record; refused unless every ring closes.
    pub fn read_shape_content(src: &[u8], record_size: i32) -> (r: Result<Polygon, Error>)
        ensures
            match r {
                Ok(p) => as_polygon(spec_read_polyline(src@, record_size as int)) == Ok::<
                    (BBox, Seq<i32>, Seq<Point>),
                    Error,
                >(p@),
                Err(e) => as_polygon(spec_read_polyline(src@, record_size as int)) == Err::<
                    (BBox, Seq<i32>, Seq<Point>),
                    Error,
                >(e),
            },
    {
        let line = Polyline::read_shape_content(src, record_size)?;
        if !rings_are_closed(&line.parts, &line.points) {
            return Err(Error::MalformedShape);
        }
        Ok(GenericPolygon { bbox: line.bbox, points: line.points, parts: line.parts })
    }
}

impl GenericPolygon<PointM> {
    /// Reads the content of a PolygonM record; refused unless every ring closes.
    pub fn read_shape_content(src: &[u8], record_size: i32) -> (r: Result<PolygonM, Error>)
        ensures
            match r {
                Ok(p) => as_polygon(spec_read_polyline_m(src@, record_size as int)) == Ok::<
                    (BBox, Seq<i32>, Seq<PointM>),
                    Error,
                >(p@),
                Err(e) => as_polygon(spec_read_polyline_m(src@, record_size as int)) == Err::<
                    (BBox, Seq<i32>, Seq<PointM>),
                    Error,
                >(e),
            },
    {
        let line = PolylineM::read_shape_content(src, record_size)?;
        if !rings_are_closed(&line.parts, &line.points) {
            return Err(Error::MalformedShape);
        }
        Ok(GenericPolygon { bbox: line.bbox, points: line.points, parts: line.parts })
    }
}

impl GenericPolygon<PointZ> {
    /// Reads the content of a PolygonZ record; refused unless every ring closes.
    pub fn read_shape_content(src: &[u8], record_size: i32) -> (r: Result<PolygonZ, Error>)
        ensures
            match r {
                Ok(p) => as_polygon(spec_read_polyline_z(src@, record_size as int)) == Ok::<
                    (BBox, Seq<i32>, Seq<PointZ>),
                    Error,
                >(p@),
                Err(e) => as_polygon(spec_read_polyline_z(src@, record_size as int)) == Err::<
                    (BBox, Seq<i32>, Seq<PointZ>),
                    Error,
                >(e),
            },
    {
        let line = PolylineZ::read_shape_content(src, record_size)?;
        if !rings_are_closed(&line.parts, &line.points) {
            return Err(Error::MalformedShape);
        }
        Ok(GenericPolygon { bbox: line.bbox, points: line.points, parts: line.parts })
    }
}


/// The x and y of each point, in turn.
pub open spec fn xy_words<P: HasXY>(pts: Seq<P>) -> Seq<u64>
    decreases pts.len(),
{
    if pts.len() == 0 {
        Seq::empty()
    } else {
        xy_words(pts.drop_last()) + seq![pts.last().x_of(), pts.last().y_of()]
    }
}

pub open spec fn bbox_words(b: BBox) -> Seq<u64> {
    seq![b.xmin, b.ymin, b.xmax, b.ymax]
}

/// The least and greatest of `vs`, skipping no-data values when `skip_no_data` holds.
pub open spec fn range_words(vs: Seq<u64>, skip_no_data: bool) -> Seq<u64> {
    seq![extreme_or_zero(vs, false, skip_no_data), extreme_or_zero(vs, true, skip_no_data)]
}

pub open spec fn parts_words(parts: Seq<i32>) -> Seq<u32> {
    parts.map_values(|p: i32| p as u32)
}

/// The content of a multipart shape: box recomputed from the points, counts,
/// parts, then the words of `tail`.
#[verifier::opaque]
pub open spec fn content_bytes<P: HasXY>(parts: Seq<i32>, pts: Seq<P>, tail: Seq<u64>) -> Seq<u8> {
    le_u64s_bytes(bbox_words(bbox_of(pts))) + le_u32_bytes(parts.len() as u32) + le_u32_bytes(
        pts.len() as u32,
    ) + le_u32s_bytes(parts_words(parts)) + le_u64s_bytes(tail)
}

pub open spec fn tail_plain(pts: Seq<Point>) -> Seq<u64> {
    xy_words(pts)
}

pub open spec fn tail_m(pts: Seq<PointM>) -> Seq<u64> {
    xy_words(pts) + range_words(ms_of_m(pts), true) + ms_of_m(pts)
}

pub open spec fn tail_z(pts: Seq<PointZ>) -> Seq<u64> {
    xy_words(pts) + range_words(zs_of(pts), false) + zs_of(pts) + range_words(ms_of_z(pts), true)
        + ms_of_z(pts)
}

/// The bytes written for the content of a Polyline or Polygon.
pub open spec fn plain_bytes(v: (BBox, Seq<i32>, Seq<Point>)) -> Seq<u8> {
    content_bytes(v.1, v.2, tail_plain(v.2))
}

/// The bytes written for the content of a PolylineM or PolygonM.
pub open spec fn m_bytes(v: (BBox, Seq<i32>, Seq<PointM>)) -> Seq<u8> {
    content_bytes(v.1, v.2, tail_m(v.2))
}

/// The bytes written for the content of a PolylineZ or PolygonZ.
pub open spec fn z_bytes(v: (BBox, Seq<i32>, Seq<PointZ>)) -> Seq<u8> {
    content_bytes(v.1, v.2, tail_z(v.2))
}

/// A shape of this size can be framed as a record: its content and tag fit an `i32`.
pub open spec fn fits_record(kind: PointKind, n: int, np: int) -> bool {
    content_size(kind, n, np, true) + 4 <= i32::MAX
}

fn push_xy_words<P: HasXY>(pts: &Vec<P>, out: &mut Vec<u64>)
    ensures
        final(out)@ == old(out)@ + xy_words(pts@),
{
    let mut i: usize = 0;
    while i < pts.len()
        invariant
            i <= pts@.len(),
            out@ == old(out)@ + xy_words(pts@.take(i as int)),
        decreases pts@.len() - i,
    {
        out.push(pts[i].x());
        out.push(pts[i].y());
        assert(pts@.take(i + 1).drop_last() =~= pts@.take(i as int));
        i = i + 1;
        assert(out@ =~= old(out)@ + xy_words(pts@.take(i as int)));
    }
    assert(pts@.take(pts@.len() as int) =~= pts@);
}

fn push_words(out: &mut Vec<u64>, vs: &Vec<u64>)
    ensures
        final(out)@ == old(out)@ + vs@,
{
    let mut i: usize = 0;
    while i < vs.len()
        invariant
            i <= vs@.len(),
            out@ == old(out)@ + vs@.take(i as int),
        decreases vs@.len() - i,
    {
        out.push(vs[i]);
        i = i + 1;
        assert(out@ =~= old(out)@ + vs@.take(i as int));
    }
    assert(vs@.take(vs@.len() as int) =~= vs@);
}

/// Appends the least and greatest of `vs` to `out`.
fn push_range(out: &mut Vec<u64>, vs: &Vec<u64>, skip_no_data: bool)
    ensures
        final(out)@ == old(out)@ + range_words(vs@, skip_no_data),
{
    out.push(find_extreme(vs.as_slice(), false, skip_no_data));
    out.push(find_extreme(vs.as_slice(), true, skip_no_data));
    assert(final(out)@ =~= old(out)@ + range_words(vs@, skip_no_data));
}

fn measures_m(pts: &Vec<PointM>) -> (r: Vec<u64>)
    ensures
        r@ == ms_of_m(pts@),
{
    let mut r: Vec<u64> = Vec::new();
    let mut i: usize = 0;
    while i < pts.len()
        invariant
            i <= pts@.len(),
            r@ =~= ms_of_m(pts@.take(i as int)),
        decreases pts@.len() - i,
    {
        r.push(pts[i].m);
        i = i + 1;
        assert(r@ =~= ms_of_m(pts@.take(i as int)));
    }
    assert(pts@.take(pts@.len() as int) =~= pts@);
    r
}

fn measures_z(pts: &Vec<PointZ>) -> (r: Vec<u64>)
    ensures
        r@ == ms_of_z(pts@),
{
    let mut r: Vec<u64> = Vec::new();
    let mut i: usize = 0;
    while i < pts.len()
        invariant
            i <= pts@.len(),
            r@ =~= ms_of_z(pts@.take(i as int)),
        decreases pts@.len() - i,
    {
        r.push(pts[i].m);
        i = i + 1;
        assert(r@ =~= ms_of_z(pts@.take(i as int)));
    }
    assert(pts@.take(pts@.len() as int) =~= pts@);
    r
}

fn heights(pts: &Vec<PointZ>) -> (r: Vec<u64>)
    ensures
        r@ == zs_of(pts@),
{
    let mut r: Vec<u64> = Vec::new();
    let mut i: usize = 0;
    while i < pts.len()
        invariant
            i <= pts@.len(),
            r@ =~= zs_of(pts@.take(i as int)),
        decreases pts@.len() - i,
    {
        r.push(pts[i].z);
        i = i + 1;
        assert(r@ =~= zs_of(pts@.take(i as int)));
    }
    assert(pts@.take(pts@.len() as int) =~= pts@);
    r
}

fn write_content<P: HasXY>(dest: &mut Vec<u8>, parts: &Vec<i32>, pts: &Vec<P>, tail: &Vec<u64>)
    requires
        parts@.len() <= i32::MAX,
        pts@.len() <= i32::MAX,
    ensures
        final(dest)@ == old(dest)@ + content_bytes(parts@, pts@, tail@),
{
    let bbox = BBox::from_points(pts);
    let corners: [u64; 4] = [bbox.xmin, bbox.ymin, bbox.xmax, bbox.ymax];
    assert(corners@ =~= bbox_words(bbox_of(pts@)));
    write_le_u64s(dest, &corners);
    write_le_u32(dest, parts.len() as u32);
    write_le_u32(dest, pts.len() as u32);
    let mut words32: Vec<u32> = Vec::new();
    let mut i: usize = 0;
    while i < parts.len()
        invariant
            i <= parts@.len(),
            words32@ =~= parts_words(parts@.take(i as int)),
        decreases parts@.len() - i,
    {
        words32.push(parts[i] as u32);
        i = i + 1;
        assert(words32@ =~= parts_words(parts@.take(i as int)));
    }
    assert(parts@.take(parts@.len() as int) =~= parts@);
    write_le_u32s(dest, words32.as_slice());
    write_le_u64s(dest, tail.as_slice());
    reveal(content_bytes);
}


pub(crate) fn tail_of_plain(pts: &Vec<Point>) -> (r: Vec<u64>)
    ensures
        r@ == tail_plain(pts@),
{
    let mut r: Vec<u64> = Vec::new();
    push_xy_words(pts, &mut r);
    assert(r@ =~= tail_plain(pts@));
    r
}

pub(crate) fn tail_of_m(pts: &Vec<PointM>) -> (r: Vec<u64>)
    ensures
        r@ == tail_m(pts@),
{
    let mut r: Vec<u64> = Vec::new();
    push_xy_words(pts, &mut r);
    let ms = measures_m(pts);
    push_range(&mut r, &ms, true);
    push_words(&mut r, &ms);
    assert(r@ =~= tail_m(pts@));
    r
}

pub(crate) fn tail_of_z(pts: &Vec<PointZ>) -> (r: Vec<u64>)
    ensures
        r@ == tail_z(pts@),
{
    let mut r: Vec<u64> = Vec::new();
    push_xy_words(pts, &mut r);
    let zs = heights(pts);
    push_range(&mut r, &zs, false);
    push_words(&mut r, &zs);
    let ms = measures_z(pts);
    push_range(&mut r, &ms, true);
    push_words(&mut r, &ms);
    assert(r@ =~= tail_z(pts@));
    r
}

/// What a polygon's parts and rings must satisfy.
pub open spec fn polygon_valid<P>(parts: Seq<i32>, pts: Seq<P>) -> bool {
    parts_valid(parts, pts.len() as int) && rings_closed(parts, pts)
}

impl GenericPolyline<Point> {
    /// The content size written for this shape.
    pub fn size_in_bytes(&self) -> (r: u64)
        requires
            fits_record(PointKind::Plain, self.points@.len() as int, self.parts@.len() as int),
        ensures
            r == content_size(PointKind::Plain, self.points@.len() as int, self.parts@.len() as int, true),
    {
        size_of_record(PointKind::Plain, self.points.len() as i32, self.parts.len() as i32, true)
    }

    /// Appends the content of this shape to `dest`, with its box and ranges
    /// recomputed from the points; `MalformedShape`, writing nothing, when
    /// the parts are not valid.
    pub fn write_to(&self, dest: &mut Vec<u8>) -> (r: Result<(), Error>)
        requires
            fits_record(PointKind::Plain, self.points@.len() as int, self.parts@.len() as int),
        ensures
            parts_valid(self.parts@, self.points@.len() as int) ==> r == Ok::<(), Error>(()) && final(dest)@ == old(dest)@ + plain_bytes(self@),
            !parts_valid(self.parts@, self.points@.len() as int) ==> r == Err::<(), Error>(Error::MalformedShape) && final(dest)@ == old(dest)@,
    {
        if !parts_array_valid(&self.parts, self.points.len()) {
            return Err(Error::MalformedShape);
        }
        let tail = tail_of_plain(&self.points);
        write_content(dest, &self.parts, &self.points, &tail);
        Ok(())
    }
}

impl GenericPolyline<PointM> {
    /// The content size written for this shape.
    pub fn size_in_bytes(&self) -> (r: u64)
        requires
            fits_record(PointKind::M, self.points@.len() as int, self.parts@.len() as int),
        ensures
            r == content_size(PointKind::M, self.points@.len() as int, self.parts@.len() as int, true),
    {
        size_of_record(PointKind::M, self.points.len() as i32, self.parts.len() as i32, true)
    }

    /// Appends the content of this shape to `dest`, with its box and ranges
    /// recomputed from the points; `MalformedShape`, writing nothing, when
    /// the parts are not valid.
    pub fn write_to(&self, dest: &mut Vec<u8>) -> (r: Result<(), Error>)
        requires
            fits_record(PointKind::M, self.points@.len() as int, self.parts@.len() as int),
        ensures
            parts_valid(self.parts@, self.points@.len() as int) ==> r == Ok::<(), Error>(()) && final(dest)@ == old(dest)@ + m_bytes(self@),
            !parts_valid(self.parts@, self.points@.len() as int) ==> r == Err::<(), Error>(Error::MalformedShape) && final(dest)@ == old(dest)@,
    {
        if !parts_array_valid(&self.parts, self.points.len()) {
            return Err(Error::MalformedShape);
        }
        let tail = tail_of_m(&self.points);
        write_content(dest, &self.parts, &self.points, &tail);
        Ok(())
    }
}

impl GenericPolyline<PointZ> {
    /// The content size written for this shape.
    pub fn size_in_bytes(&self) -> (r: u64)
        requires
            fits_record(PointKind::Z, self.points@.len() as int, self.parts@.len() as int),
        ensures
            r == content_size(PointKind::Z, self.points@.len() as int, self.parts@.len() as int, true),
    {
        size_of_record(PointKind::Z, self.points.len() as i32, self.parts.len() as i32, true)
    }

    /// Appends the content of this shape to `dest`, with its box and ranges
    /// recomputed from the points; `MalformedShape`, writing nothing, when
    /// the parts are not valid.
    pub fn write_to(&self, dest: &mut Vec<u8>) -> (r: Result<(), Error>)
        requires
            fits_record(PointKind::Z, self.points@.len() as int, self.parts@.len() as int),
        ensures
            parts_valid(self.parts@, self.points@.len() as int) ==> r == Ok::<(), Error>(()) && final(dest)@ == old(dest)@ + z_bytes(self@),
            !parts_valid(self.parts@, self.points@.len() as int) ==> r == Err::<(), Error>(Error::MalformedShape) && final(dest)@ == old(dest)@,
    {
        if !parts_array_valid(&self.parts, self.points.len()) {
            return Err(Error::MalformedShape);
        }
        let tail = tail_of_z(&self.points);
        write_content(dest, &self.parts, &self.points, &tail);
        Ok(())
    }
}

impl GenericPolygon<Point> {
    /// The content size written for this shape.
    pub fn size_in_bytes(&self) -> (r: u64)
        requires
            fits_record(PointKind::Plain, self.points@.len() as int, self.parts@.len() as int),
        ensures
            r == content_size(PointKind::Plain, self.points@.len() as int, self.parts@.len() as int, true),
    {
        size_of_record(PointKind::Plain, self.points.len() as i32, self.parts.len() as i32, true)
    }

    /// Appends the content of this shape to `dest`, with its box and ranges
    /// recomputed from the points; `MalformedShape`, writing nothing, when
    /// the parts are not valid.
    pub fn write_to(&self, dest: &mut Vec<u8>) -> (r: Result<(), Error>)
        requires
            fits_record(PointKind::Plain, self.points@.len() as int, self.parts@.len() as int),
        ensures
            parts_valid(self.parts@, self.points@.len() as int) ==> r == Ok::<(), Error>(()) && final(dest)@ == old(dest)@ + plain_bytes(self@),
            !parts_valid(self.parts@, self.points@.len() as int) ==> r == Err::<(), Error>(Error::MalformedShape) && final(dest)@ == old(dest)@,
    {
        if !parts_array_valid(&self.parts, self.points.len()) {
            return Err(Error::MalformedShape);
        }
        let tail = tail_of_plain(&self.points);
        write_content(dest, &self.parts, &self.points, &tail);
        Ok(())
    }
}

impl GenericPolygon<PointM> {
    /// The content size written for this shape.
    pub fn size_in_bytes(&self) -> (r: u64)
        requires
            fits_record(PointKind::M, self.points@.len() as int, self.parts@.len() as int),
        ensures
            r == content_size(PointKind::M, self.points@.len() as int, self.parts@.len() as int, true),
    {
        size_of_record(PointKind::M, self.points.len() as i32, self.parts.len() as i32, true)
    }

    /// Appends the content of this shape to `dest`, with its box and ranges
    /// recomputed from the points; `MalformedShape`, writing nothing, when
    /// the parts are not valid.
    pub fn write_to(&self, dest: &mut Vec<u8>) -> (r: Result<(), Error>)
        requires
            fits_record(PointKind::M, self.points@.len() as int, self.parts@.len() as int),
        ensures
            parts_valid(self.parts@, self.points@.len() as int) ==> r == Ok::<(), Error>(()) && final(dest)@ == old(dest)@ + m_bytes(self@),
            !parts_valid(self.parts@, self.points@.len() as int) ==> r == Err::<(), Error>(Error::MalformedShape) && final(dest)@ == old(dest)@,
    {
        if !parts_array_valid(&self.parts, self.points.len()) {
            return Err(Error::MalformedShape);
        }
        let tail = tail_of_m(&self.points);
        write_content(dest, &self.parts, &self.points, &tail);
        Ok(())
    }
}

impl GenericPolygon<PointZ> {
    /// The content size written for this shape.
    pub fn size_in_bytes(&self) -> (r: u64)
        requires
            fits_record(PointKind::Z, self.points@.len() as int, self.parts@.len() as int),
        ensures
            r == content_size(PointKind::Z, self.points@.len() as int, self.parts@.len() as int, true),
    {
        size_of_record(PointKind::Z, self.points.len() as i32, self.parts.len() as i32, true)
    }

    /// Appends the content of this shape to `dest`, with its box and ranges
    /// recomputed from the points; `MalformedShape`, writing nothing, when
    /// the parts are not valid.
    pub fn write_to(&self, dest: &mut Vec<u8>) -> (r: Result<(), Error>)
        requires
            fits_record(PointKind::Z, self.points@.len() as int, self.parts@.len() as int),
        ensures
            parts_valid(self.parts@, self.points@.len() as int) ==> r == Ok::<(), Error>(()) && final(dest)@ == old(dest)@ + z_bytes(self@),
            !parts_valid(self.parts@, self.points@.len() as int) ==> r == Err::<(), Error>(Error::MalformedShape) && final(dest)@ == old(dest)@,
    {
        if !parts_array_valid(&self.parts, self.points.len()) {
            return Err(Error::MalformedShape);
        }
        let tail = tail_of_z(&self.points);
        write_content(dest, &self.parts, &self.points, &tail);
        Ok(())
    }
}


pub(crate) proof fn lemma_xy_words<P: HasXY>(pts: Seq<P>)
    ensures
        xy_words(pts).len() == 2 * pts.len(),
        forall|i: int|
            0 <= i < pts.len() ==> #[trigger] xy_words(pts)[2 * i] == pts[i].x_of() && xy_words(
                pts,
            )[2 * i + 1] == pts[i].y_of(),
    decreases pts.len(),
{
    if pts.len() > 0 {
        let init = pts.drop_last();
        lemma_xy_words(init);
        assert forall|i: int| 0 <= i < pts.len() implies #[trigger] xy_words(pts)[2 * i]
            == pts[i].x_of() && xy_words(pts)[2 * i + 1] == pts[i].y_of() by {
            if i < pts.len() - 1 {
                assert(init[i] == pts[i]);
            }
        }
    }
}

/// Where each field of an encoded content stands.
#[verifier::rlimit(30)]
pub(crate) proof fn lemma_content_layout<P: HasXY>(
    parts: Seq<i32>,
    pts: Seq<P>,
    tail: Seq<u64>,
    rest: Seq<u8>,
)
    requires
        parts.len() <= i32::MAX,
        pts.len() <= i32::MAX,
    ensures
        content_bytes(parts, pts, tail).len() == 40 + 4 * parts.len() + 8 * tail.len(),
        ({
            let s = content_bytes(parts, pts, tail) + rest;
            let np = parts.len() as int;
            &&& s.len() == 40 + 4 * np + 8 * tail.len() + rest.len()
            &&& le_u32(s.subrange(32, 36)) as i32 == np
            &&& le_u32(s.subrange(36, 40)) as i32 == pts.len()
            &&& le_u32s_at(s, 40, parts.len()) == parts_words(parts)
            &&& le_u64s_at(s, 40 + 4 * np, tail.len()) == tail
            &&& le_u64s_at(s, 0, 4) == bbox_words(bbox_of(pts))
        }),
{
    reveal(content_bytes);
    let s = content_bytes(parts, pts, tail) + rest;
    let np = parts.len() as int;
    let n = pts.len() as int;
    let bw = bbox_words(bbox_of(pts));
    let pw = parts_words(parts);
    lemma_le_u64s_len(bw);
    lemma_le_u32s_len(pw);
    lemma_le_u64s_len(tail);
    assert(s.subrange(0, 32) =~= le_u64s_bytes(bw));
    assert(s.subrange(32, 36) =~= le_u32_bytes(np as u32));
    assert(s.subrange(36, 40) =~= le_u32_bytes(n as u32));
    assert(s.subrange(40, 40 + 4 * np) =~= le_u32s_bytes(pw));
    assert(s.subrange(40 + 4 * np, 40 + 4 * np + 8 * (tail.len() as int)) =~= le_u64s_bytes(tail));
    lemma_le_u32_round_trip(np as u32);
    lemma_le_u32_round_trip(n as u32);
    lemma_le_u64s_read_back(s, 0, bw);
    lemma_le_u32s_read_back(s, 40, pw);
    lemma_le_u64s_read_back(s, 40 + 4 * np, tail);
}

/// The fixed layout of an encoded content reads back as it was written.
#[verifier::rlimit(30)]
proof fn lemma_read_frame_of_content<P: HasXY>(
    kind: PointKind,
    parts: Seq<i32>,
    pts: Seq<P>,
    tail: Seq<u64>,
    with_m: bool,
    rest: Seq<u8>,
)
    requires
        parts_valid(parts, pts.len() as int),
        fits_record(kind, pts.len() as int, parts.len() as int),
        tail.len() == tail_len(kind, pts.len() as int, with_m),
        kind == PointKind::Plain ==> !with_m,
    ensures
        spec_read_frame(
            kind,
            content_bytes(parts, pts, tail) + rest,
            content_size(kind, pts.len() as int, parts.len() as int, with_m),
        ) == Ok::<Frame, Error>(
            Frame { bbox: bbox_of(pts), parts, n: pts.len(), with_m, words: tail },
        ),
{
    reveal(spec_read_frame);
    let s = content_bytes(parts, pts, tail) + rest;
    let np = parts.len() as int;
    lemma_content_layout(parts, pts, tail, rest);
    let words4 = le_u64s_at(s, 0, 4);
    assert(word_at(s, 0) == words4[0] && word_at(s, 8) == words4[1]);
    assert(word_at(s, 16) == words4[2] && word_at(s, 24) == words4[3]);
    let pw = parts_words(parts);
    assert forall|k: int| 0 <= k < np implies #[trigger] parts_from_words(pw)[k] == parts[k] by {
        lemma_i32_u32_round_trip(parts[k]);
    }
    assert(parts_from_words(le_u32s_at(s, 40, np as nat)) =~= parts);
}

/// Encoding a valid Polyline and decoding the bytes, whatever
/// follows them, gives it back.
pub proof fn lemma_polyline_round_trip(p: Polyline, rest: Seq<u8>)
    requires
        parts_valid(p.parts@, p.points@.len() as int),
        p.bbox == bbox_of(p.points@),
        fits_record(PointKind::Plain, p.points@.len() as int, p.parts@.len() as int),
    ensures
        spec_read_polyline(
            plain_bytes(p@) + rest,
            content_size(PointKind::Plain, p.points@.len() as int, p.parts@.len() as int, true),
        ) == Ok::<(BBox, Seq<i32>, Seq<Point>), Error>(p@),
{
    let pts = p.points@;
    lemma_xy_words(pts);
    lemma_read_frame_of_content(PointKind::Plain, p.parts@, pts, tail_plain(pts), false, rest);
    assert(points_plain(tail_plain(pts), pts.len()) =~= pts);
}


/// Encoding a valid PolylineM and decoding the bytes, whatever
/// follows them, gives it back: the m
/// block is always written, so every measure comes back as it was.
#[verifier::rlimit(30)]
pub proof fn lemma_polyline_m_round_trip(p: PolylineM, rest: Seq<u8>)
    requires
        parts_valid(p.parts@, p.points@.len() as int),
        p.bbox == bbox_of(p.points@),
        fits_record(PointKind::M, p.points@.len() as int, p.parts@.len() as int),
    ensures
        spec_read_polyline_m(
            m_bytes(p@) + rest,
            content_size(PointKind::M, p.points@.len() as int, p.parts@.len() as int, true),
        ) == Ok::<(BBox, Seq<i32>, Seq<PointM>), Error>(p@),
{
    let pts = p.points@;
    let n = pts.len();
    lemma_xy_words(pts);
    let tail = tail_m(pts);
    lemma_read_frame_of_content(PointKind::M, p.parts@, pts, tail, true, rest);
    assert forall|i: int| 0 <= i < n implies #[trigger] points_m(tail, n, true)[i] == pts[i] by {
        assert(tail[2 * i] == xy_words(pts)[2 * i]);
        assert(tail[2 * i + 1] == xy_words(pts)[2 * i + 1]);
        assert(tail[2 * n + 2 + i] == ms_of_m(pts)[i]);
    }
    assert(points_m(tail, n, true) =~= pts);
}

/// Encoding a valid PolylineZ and decoding the bytes, whatever
/// follows them, gives it back: the m
/// block is always written, so every measure comes back as it was.
#[verifier::rlimit(30)]
pub proof fn lemma_polyline_z_round_trip(p: PolylineZ, rest: Seq<u8>)
    requires
        parts_valid(p.parts@, p.points@.len() as int),
        p.bbox == bbox_of(p.points@),
        fits_record(PointKind::Z, p.points@.len() as int, p.parts@.len() as int),
    ensures
        spec_read_polyline_z(
            z_bytes(p@) + rest,
            content_size(PointKind::Z, p.points@.len() as int, p.parts@.len() as int, true),
        ) == Ok::<(BBox, Seq<i32>, Seq<PointZ>), Error>(p@),
{
    let pts = p.points@;
    let n = pts.len();
    lemma_xy_words(pts);
    let tail = tail_z(pts);
    lemma_read_frame_of_content(PointKind::Z, p.parts@, pts, tail, true, rest);
    assert forall|i: int| 0 <= i < n implies #[trigger] points_z(tail, n, true)[i] == pts[i] by {
        assert(tail[2 * i] == xy_words(pts)[2 * i]);
        assert(tail[2 * i + 1] == xy_words(pts)[2 * i + 1]);
        assert(tail[2 * n + 2 + i] == zs_of(pts)[i]);
        assert(tail[3 * n + 4 + i] == ms_of_z(pts)[i]);
    }
    assert(points_z(tail, n, true) =~= pts);
}

/// Encoding a valid Polygon and decoding the bytes, whatever
/// follows them, gives it back.
pub proof fn lemma_polygon_round_trip(p: Polygon, rest: Seq<u8>)
    requires
        polygon_valid(p.parts@, p.points@),
        p.bbox == bbox_of(p.points@),
        fits_record(PointKind::Plain, p.points@.len() as int, p.parts@.len() as int),
    ensures
        as_polygon(
            spec_read_polyline(
                plain_bytes(p@) + rest,
                content_size(PointKind::Plain, p.points@.len() as int, p.parts@.len() as int, true),
            ),
        ) == Ok::<(BBox, Seq<i32>, Seq<Point>), Error>(p@),
{
    let line = GenericPolyline { bbox: p.bbox, points: p.points, parts: p.parts };
    lemma_polyline_round_trip(line, rest);
}

/// Encoding a valid PolygonM and decoding the bytes, whatever
/// follows them, gives it back.
pub proof fn lemma_polygon_m_round_trip(p: PolygonM, rest: Seq<u8>)
    requires
        polygon_valid(p.parts@, p.points@),
        p.bbox == bbox_of(p.points@),
        fits_record(PointKind::M, p.points@.len() as int, p.parts@.len() as int),
    ensures
        as_polygon(
            spec_read_polyline_m(
                m_bytes(p@) + rest,
                content_size(PointKind::M, p.points@.len() as int, p.parts@.len() as int, true),
            ),
        ) == Ok::<(BBox, Seq<i32>, Seq<PointM>), Error>(p@),
{
    let line = GenericPolyline { bbox: p.bbox, points: p.points, parts: p.parts };
    lemma_polyline_m_round_trip(line, rest);
}

/// Encoding a valid PolygonZ and decoding the bytes, whatever
/// follows them, gives it back.
pub proof fn lemma_polygon_z_round_trip(p: PolygonZ, rest: Seq<u8>)
    requires
        polygon_valid(p.parts@, p.points@),
        p.bbox == bbox_of(p.points@),
        fits_record(PointKind::Z, p.points@.len() as int, p.parts@.len() as int),
    ensures
        as_polygon(
            spec_read_polyline_z(
                z_bytes(p@) + rest,
                content_size(PointKind::Z, p.points@.len() as int, p.parts@.len() as int, true),
            ),
        ) == Ok::<(BBox, Seq<i32>, Seq<PointZ>), Error>(p@),
{
    let line = GenericPolyline { bbox: p.bbox, points: p.points, parts: p.parts };
    lemma_polyline_z_round_trip(line, rest);
}


/// A multipart content whose size matches neither the size with the m block
/// nor the size without it, for the counts it declares, is refused with
/// `InvalidShapeRecordSize`.
pub proof fn lemma_wrong_record_size_rejected(kind: PointKind, s: Seq<u8>, rs: int)
    requires
        s.len() >= 40,
        rs != content_size(
            kind,
            le_u32(s.subrange(36, 40)) as i32 as int,
            le_u32(s.subrange(32, 36)) as i32 as int,
            true,
        ),
        rs != content_size(
            kind,
            le_u32(s.subrange(36, 40)) as i32 as int,
            le_u32(s.subrange(32, 36)) as i32 as int,
            false,
        ),
    ensures
        spec_read_frame(kind, s, rs) == Err::<Frame, Error>(Error::InvalidShapeRecordSize),
{
    reveal(spec_read_frame);
}


impl GenericPolyline<PointM> {
    /// The least and greatest measure, leaving out no-data values; zeros when none is left.
    pub fn m_range(&self) -> (r: [u64; 2])
        ensures
            r@ == range_words(ms_of_m(self.points@), true),
    {
        let ms = measures_m(&self.points);
        let r = [find_extreme(ms.as_slice(), false, true), find_extreme(ms.as_slice(), true, true)];
        assert(r@ =~= range_words(ms_of_m(self.points@), true));
        r
    }
}

impl GenericPolyline<PointZ> {
    /// The least and greatest measure, leaving out no-data values; zeros when none is left.
    pub fn m_range(&self) -> (r: [u64; 2])
        ensures
            r@ == range_words(ms_of_z(self.points@), true),
    {
        let ms = measures_z(&self.points);
        let r = [find_extreme(ms.as_slice(), false, true), find_extreme(ms.as_slice(), true, true)];
        assert(r@ =~= range_words(ms_of_z(self.points@), true));
        r
    }

    /// The least and greatest z; zeros when there are no points.
    pub fn z_range(&self) -> (r: [u64; 2])
        ensures
            r@ == range_words(zs_of(self.points@), false),
    {
        let zs = heights(&self.points);
        let r = [find_extreme(zs.as_slice(), false, false), find_extreme(zs.as_slice(), true, false)];
        assert(r@ =~= range_words(zs_of(self.points@), false));
        r
    }
}

impl GenericPolygon<PointM> {
    /// The least and greatest measure, leaving out no-data values; zeros when none is left.
    pub fn m_range(&self) -> (r: [u64; 2])
        ensures
            r@ == range_words(ms_of_m(self.points@), true),
    {
        let ms = measures_m(&self.points);
        let r = [find_extreme(ms.as_slice(), false, true), find_extreme(ms.as_slice(), true, true)];
        assert(r@ =~= range_words(ms_of_m(self.points@), true));
        r
    }
}

impl GenericPolygon<PointZ> {
    /// The least and greatest measure, leaving out no-data values; zeros when none is left.
    pub fn m_range(&self) -> (r: [u64; 2])
        ensures
            r@ == range_words(ms_of_z(self.points@), true),
    {
        let ms = measures_z(&self.points);
        let r = [find_extreme(ms.as_slice(), false, true), find_extreme(ms.as_slice(), true, true)];
        assert(r@ =~= range_words(ms_of_z(self.points@), true));
        r
    }

    /// The least and greatest z; zeros when there are no points.
    pub fn z_range(&self) -> (r: [u64; 2])
        ensures
            r@ == range_words(zs_of(self.points@), false),
    {
        let zs = heights(&self.points);
        let r = [find_extreme(zs.as_slice(), false, false), find_extreme(zs.as_slice(), true, false)];
        assert(r@ =~= range_words(zs_of(self.points@), false));
        r
    }
}

impl<PointType> From<GenericPolygon<PointType>> for GenericPolyline<PointType> {
    fn from(p: GenericPolygon<PointType>) -> (r: GenericPolyline<PointType>) {
        GenericPolyline { bbox: p.bbox, points: p.points, parts: p.parts }
    }
}

impl<PointType> vstd::std_specs::convert::FromSpecImpl<GenericPolygon<PointType>> for GenericPolyline<PointType> {
    open spec fn obeys_from_spec() -> bool {
        true
    }

    open spec fn from_spec(p: GenericPolygon<PointType>) -> GenericPolyline<PointType> {
        GenericPolyline { bbox: p.bbox, points: p.points, parts: p.parts }
    }
}


impl<PointType> From<GenericPolyline<PointType>> for GenericPolygon<PointType> {
    fn from(p: GenericPolyline<PointType>) -> (r: GenericPolygon<PointType>) {
        GenericPolygon { bbox: p.bbox, points: p.points, parts: p.parts }
    }
}

impl<PointType> vstd::std_specs::convert::FromSpecImpl<GenericPolyline<PointType>> for GenericPolygon<PointType> {
    open spec fn obeys_from_spec() -> bool {
        true
    }

    open spec fn from_spec(p: GenericPolyline<PointType>) -> GenericPolygon<PointType> {
        GenericPolygon { bbox: p.bbox, points: p.points, parts: p.parts }
    }
}

} // verus!
