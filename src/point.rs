//! Points, bounding boxes and the ordering of coordinates.
//!
//! A coordinate is the bit pattern of an IEEE-754 double. Coordinates are
//! compared under the IEEE-754 total order (the order of `f64::total_cmp`).

use vstd::prelude::*;

verus! {

/// The measure written for "no measurement": the bits of -1e39.
pub const NO_DATA: u64 = 0xc807_8287_f49c_4a1d;

/// The bits of 1e38, the magnitude at and beyond which a negative measure means "no data".
pub const NO_DATA_LIMIT: u64 = 0x47d2_ced3_2a16_a1b1;

pub const SIGN_BIT: u64 = 0x8000_0000_0000_0000;

pub const MAGNITUDE: u64 = 0x7fff_ffff_ffff_ffff;

pub const INFINITY: u64 = 0x7ff0_0000_0000_0000;

/// Whether the double with bits `m` is a number at or below -1e38.
pub open spec fn spec_is_no_data(m: u64) -> bool {
    m & SIGN_BIT != 0 && NO_DATA_LIMIT <= m & MAGNITUDE && m & MAGNITUDE <= INFINITY
}

/// Whether the double with bits `m` is a number at or below -1e38.
pub fn is_no_data(m: u64) -> (r: bool)
    ensures
        r == spec_is_no_data(m),
{
    m & SIGN_BIT != 0 && NO_DATA_LIMIT <= m & MAGNITUDE && m & MAGNITUDE <= INFINITY
}

/// The position of the double with bits `b` in the IEEE-754 total order.
pub open spec fn order_key(b: u64) -> u64 {
    if b & SIGN_BIT != 0 {
        !b
    } else {
        b | SIGN_BIT
    }
}

fn key(b: u64) -> (r: u64)
    ensures
        r == order_key(b),
{
    if b & SIGN_BIT != 0 {
        !b
    } else {
        b | SIGN_BIT
    }
}

/// The least (or, with `greatest`, the greatest) value of `vs` in the total
/// order, skipping no-data values when `skip_no_data` holds; `None` when
/// nothing is left.
pub open spec fn extreme(vs: Seq<u64>, greatest: bool, skip_no_data: bool) -> Option<u64>
    decreases vs.len(),
{
    if vs.len() == 0 {
        None
    } else {
        let rest = extreme(vs.drop_last(), greatest, skip_no_data);
        let v = vs.last();
        if skip_no_data && spec_is_no_data(v) {
            rest
        } else {
            match rest {
                None => Some(v),
                Some(e) => if (greatest && order_key(e) < order_key(v)) || (!greatest && order_key(v)
                    < order_key(e)) {
                    Some(v)
                } else {
                    Some(e)
                },
            }
        }
    }
}

/// `extreme`, or 0 (the bits of 0.0) when there is none.
pub open spec fn extreme_or_zero(vs: Seq<u64>, greatest: bool, skip_no_data: bool) -> u64 {
    match extreme(vs, greatest, skip_no_data) {
        Some(v) => v,
        None => 0,
    }
}

/// Computes `extreme_or_zero`.
pub fn find_extreme(vs: &[u64], greatest: bool, skip_no_data: bool) -> (r: u64)
    ensures
        r == extreme_or_zero(vs@, greatest, skip_no_data),
{
    let mut best: Option<u64> = None;
    let mut i: usize = 0;
    while i < vs.len()
        invariant
            i <= vs@.len(),
            best == extreme(vs@.take(i as int), greatest, skip_no_data),
        decreases vs@.len() - i,
    {
        let v = vs[i];
        assert(vs@.take(i + 1).drop_last() =~= vs@.take(i as int));
        if !(skip_no_data && is_no_data(v)) {
            best = match best {
                None => Some(v),
                Some(e) => {
                    let ke = key(e);
                    let kv = key(v);
                    if (greatest && ke < kv) || (!greatest && kv < ke) {
                        Some(v)
                    } else {
                        Some(e)
                    }
                },
            };
        }
        i = i + 1;
    }
    assert(vs@.take(vs@.len() as int) =~= vs@);
    match best {
        Some(v) => v,
        None => 0,
    }
}

/// A point in the plane.
#[derive(Debug, Clone, Copy, PartialEq, Eq, Structural)]
pub struct Point {
    pub x: u64,
    pub y: u64,
}

/// A point with a measure.
#[derive(Debug, Clone, Copy, PartialEq, Eq, Structural)]
pub struct PointM {
    pub x: u64,
    pub y: u64,
    pub m: u64,
}

/// A point with a height and a measure.
#[derive(Debug, Clone, Copy, PartialEq, Eq, Structural)]
pub struct PointZ {
    pub x: u64,
    pub y: u64,
    pub z: u64,
    pub m: u64,
}

impl Point {
    pub fn new(x: u64, y: u64) -> (r: Point)
        ensures
            r == (Point { x, y }),
    {
        Point { x, y }
    }
}

impl PointM {
    pub fn new(x: u64, y: u64, m: u64) -> (r: PointM)
        ensures
            r == (PointM { x, y, m }),
    {
        PointM { x, y, m }
    }
}

impl PointZ {
    pub fn new(x: u64, y: u64, z: u64, m: u64) -> (r: PointZ)
        ensures
            r == (PointZ { x, y, z, m }),
    {
        PointZ { x, y, z, m }
    }
}

/// Points that have a position in the plane.
pub trait HasXY: Sized {
    spec fn x_of(&self) -> u64;

    spec fn y_of(&self) -> u64;

    fn x(&self) -> (r: u64)
        ensures
            r == self.x_of(),
    ;

    fn y(&self) -> (r: u64)
        ensures
            r == self.y_of(),
    ;

    /// Whether the two points are the same in every coordinate.
    fn same_as(&self, other: &Self) -> (r: bool)
        ensures
            r == (*self == *other),
    ;
}

impl HasXY for Point {
    open spec fn x_of(&self) -> u64 {
        self.x
    }

    open spec fn y_of(&self) -> u64 {
        self.y
    }

    fn x(&self) -> u64 {
        self.x
    }

    fn y(&self) -> u64 {
        self.y
    }

    fn same_as(&self, other: &Self) -> bool {
        self.x == other.x && self.y == other.y
    }
}

impl HasXY for PointM {
    open spec fn x_of(&self) -> u64 {
        self.x
    }

    open spec fn y_of(&self) -> u64 {
        self.y
    }

    fn x(&self) -> u64 {
        self.x
    }

    fn y(&self) -> u64 {
        self.y
    }

    fn same_as(&self, other: &Self) -> bool {
        self.x == other.x && self.y == other.y && self.m == other.m
    }
}

impl HasXY for PointZ {
    open spec fn x_of(&self) -> u64 {
        self.x
    }

    open spec fn y_of(&self) -> u64 {
        self.y
    }

    fn x(&self) -> u64 {
        self.x
    }

    fn y(&self) -> u64 {
        self.y
    }

    fn same_as(&self, other: &Self) -> bool {
        self.x == other.x && self.y == other.y && self.z == other.z && self.m == other.m
    }
}

/// A bounding box in the plane.
#[derive(Debug, Clone, Copy, PartialEq, Eq, Structural)]
pub struct BBox {
    pub xmin: u64,
    pub ymin: u64,
    pub xmax: u64,
    pub ymax: u64,
}

pub open spec fn xs_of<P: HasXY>(pts: Seq<P>) -> Seq<u64> {
    pts.map_values(|p: P| p.x_of())
}

pub open spec fn ys_of<P: HasXY>(pts: Seq<P>) -> Seq<u64> {
    pts.map_values(|p: P| p.y_of())
}

pub open spec fn zs_of(pts: Seq<PointZ>) -> Seq<u64> {
    pts.map_values(|p: PointZ| p.z)
}

pub open spec fn ms_of_m(pts: Seq<PointM>) -> Seq<u64> {
    pts.map_values(|p: PointM| p.m)
}

pub open spec fn ms_of_z(pts: Seq<PointZ>) -> Seq<u64> {
    pts.map_values(|p: PointZ| p.m)
}

/// The box spanned by the points; all zeros when there are none.
pub open spec fn bbox_of<P: HasXY>(pts: Seq<P>) -> BBox {
    BBox {
        xmin: extreme_or_zero(xs_of(pts), false, false),
        ymin: extreme_or_zero(ys_of(pts), false, false),
        xmax: extreme_or_zero(xs_of(pts), true, false),
        ymax: extreme_or_zero(ys_of(pts), true, false),
    }
}

pub fn xs<P: HasXY>(pts: &Vec<P>) -> (r: Vec<u64>)
    ensures
        r@ == xs_of(pts@),
{
    let mut r: Vec<u64> = Vec::new();
    let mut i: usize = 0;
    while i < pts.len()
        invariant
            i <= pts@.len(),
            r@ =~= xs_of(pts@.take(i as int)),
        decreases pts@.len() - i,
    {
        r.push(pts[i].x());
        i = i + 1;
        assert(r@ =~= xs_of(pts@.take(i as int)));
    }
    assert(pts@.take(pts@.len() as int) =~= pts@);
    r
}

pub fn ys<P: HasXY>(pts: &Vec<P>) -> (r: Vec<u64>)
    ensures
        r@ == ys_of(pts@),
{
    let mut r: Vec<u64> = Vec::new();
    let mut i: usize = 0;
    while i < pts.len()
        invariant
            i <= pts@.len(),
            r@ =~= ys_of(pts@.take(i as int)),
        decreases pts@.len() - i,
    {
        r.push(pts[i].y());
        i = i + 1;
        assert(r@ =~= ys_of(pts@.take(i as int)));
    }
    assert(pts@.take(pts@.len() as int) =~= pts@);
    r
}

impl BBox {
    /// The box spanned by `points`, under the total order; all zeros when empty.
    pub fn from_points<P: HasXY>(points: &Vec<P>) -> (r: BBox)
        ensures
            r == bbox_of(points@),
    {
        let xv = xs(points);
        let yv = ys(points);
        BBox {
            xmin: find_extreme(&xv, false, false),
            ymin: find_extreme(&yv, false, false),
            xmax: find_extreme(&xv, true, false),
            ymax: find_extreme(&yv, true, false),
        }
    }
}

} // verus!
