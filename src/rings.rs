//! Laying out the rings of a polygon with holes as one polygon.
//!
//! Whether a ring runs clockwise is a question about floating-point areas,
//! answered by the caller; here each ring is turned as its role asks and the
//! rings are laid end to end, exterior first.

use vstd::prelude::*;
use crate::error::Error;
use crate::point::{bbox_of, BBox, HasXY};
use crate::poly::{GenericPolygon, GenericPolyline};

verus! {

pub open spec fn reversed<P>(s: Seq<P>) -> Seq<P> {
    Seq::new(s.len(), |i: int| s[s.len() - 1 - i])
}

/// `ring`, reversed when `reverse` holds.
pub open spec fn oriented<P>(ring: Seq<P>, reverse: bool) -> Seq<P> {
    if reverse {
        reversed(ring)
    } else {
        ring
    }
}

/// The rings laid end to end.
pub open spec fn concat_all<P>(rs: Seq<Seq<P>>) -> Seq<P>
    decreases rs.len(),
{
    if rs.len() == 0 {
        Seq::empty()
    } else {
        concat_all(rs.drop_last()) + rs.last()
    }
}

/// Where each ring starts once the rings are laid end to end.
pub open spec fn ring_starts<P>(rs: Seq<Seq<P>>) -> Seq<i32> {
    Seq::new(rs.len(), |k: int| concat_all(rs.take(k)).len() as i32)
}

/// The rings of a polygon with holes, each turned as its role asks: the
/// exterior reversed unless it already has the orientation of an outer ring,
/// each interior reversed when it has that orientation.
pub open spec fn laid_out_rings<P>(
    exterior: Seq<P>,
    exterior_is_outer: bool,
    interiors: Seq<Vec<P>>,
    interiors_are_outer: Seq<bool>,
) -> Seq<Seq<P>> {
    seq![oriented(exterior, !exterior_is_outer)] + Seq::new(
        interiors.len(),
        |k: int| oriented(interiors[k]@, interiors_are_outer[k]),
    )
}

proof fn lemma_concat_prefix_len<P>(rs: Seq<Seq<P>>, j: int)
    requires
        0 <= j <= rs.len(),
    ensures
        concat_all(rs.take(j)).len() <= concat_all(rs).len(),
    decreases rs.len(),
{
    if j < rs.len() {
        let init = rs.drop_last();
        assert(rs.take(j) =~= init.take(j));
        lemma_concat_prefix_len(init, j);
    } else {
        assert(rs.take(j) =~= rs);
    }
}

/// Appends `ring` to `out`, reversed when `reverse` holds.
fn append_ring<P: Copy>(out: &mut Vec<P>, ring: &Vec<P>, reverse: bool)
    ensures
        final(out)@ == old(out)@ + oriented(ring@, reverse),
{
    let n = ring.len();
    let mut i: usize = 0;
    while i < n
        invariant
            n == ring@.len(),
            i <= n,
            out@ == old(out)@ + oriented(ring@, reverse).take(i as int),
        decreases n - i,
    {
        let j = if reverse {
            n - 1 - i
        } else {
            i
        };
        out.push(ring[j]);
        i = i + 1;
        assert(out@ =~= old(out)@ + oriented(ring@, reverse).take(i as int));
    }
    assert(oriented(ring@, reverse).take(n as int) =~= oriented(ring@, reverse));
}

impl<P: HasXY + Copy> GenericPolygon<P> {
    /// The polygon made of one exterior ring and its interior rings. The
    /// flags say which rings already have the orientation of an outer ring
    /// (clockwise). An empty exterior gives a polygon with no points and no
    /// parts.
    pub fn from_rings(
        exterior: &Vec<P>,
        exterior_is_outer: bool,
        interiors: &Vec<Vec<P>>,
        interiors_are_outer: &Vec<bool>,
    ) -> (r: Self)
        requires
            interiors_are_outer@.len() == interiors@.len(),
            concat_all(
                laid_out_rings(exterior@, exterior_is_outer, interiors@, interiors_are_outer@),
            ).len() <= i32::MAX,
        ensures
            exterior@.len() == 0 ==> r.points@.len() == 0 && r.parts@.len() == 0,
            exterior@.len() > 0 ==> r.points@ == concat_all(
                laid_out_rings(exterior@, exterior_is_outer, interiors@, interiors_are_outer@),
            ) && r.parts@ == ring_starts(
                laid_out_rings(exterior@, exterior_is_outer, interiors@, interiors_are_outer@),
            ),
            r.bbox == bbox_of(r.points@),
    {
        let ghost rings = laid_out_rings(
            exterior@,
            exterior_is_outer,
            interiors@,
            interiors_are_outer@,
        );
        let mut points: Vec<P> = Vec::new();
        let mut parts: Vec<i32> = Vec::new();
        if exterior.len() == 0 {
            return GenericPolygon::new(points, parts);
        }
        parts.push(0);
        append_ring(&mut points, exterior, !exterior_is_outer);
        assert(rings.take(1).drop_last() =~= Seq::<Seq<P>>::empty());
        assert(concat_all(Seq::<Seq<P>>::empty()) =~= Seq::<P>::empty());
        assert(rings.take(1).last() == oriented(exterior@, !exterior_is_outer));
        assert(points@ =~= concat_all(rings.take(1)));
        assert(parts@ =~= ring_starts(rings).take(1)) by {
            assert(rings.take(0) =~= Seq::<Seq<P>>::empty());
        }
        let mut k: usize = 0;
        while k < interiors.len()
            invariant
                k <= interiors@.len(),
                interiors_are_outer@.len() == interiors@.len(),
                rings == laid_out_rings(exterior@, exterior_is_outer, interiors@, interiors_are_outer@),
                concat_all(rings).len() <= i32::MAX,
                points@ == concat_all(rings.take(k + 1)),
                parts@ == ring_starts(rings).take(k + 1),
            decreases interiors@.len() - k,
        {
            proof {
                lemma_concat_prefix_len(rings, k + 1);
            }
            parts.push(points.len() as i32);
            append_ring(&mut points, &interiors[k], interiors_are_outer[k]);
            assert(rings.take(k + 2).drop_last() =~= rings.take(k + 1));
            assert(rings[k + 1] == oriented(interiors@[k as int]@, interiors_are_outer@[k as int]));
            k = k + 1;
            assert(points@ =~= concat_all(rings.take(k + 1)));
            assert(parts@ =~= ring_starts(rings).take(k + 1));
        }
        assert(rings.take(k + 1) =~= rings);
        assert(ring_starts(rings).take(k + 1) =~= ring_starts(rings));
        GenericPolygon::new(points, parts)
    }
}


impl<P: HasXY + Copy> GenericPolyline<P> {
    /// The polyline made of `lines` laid end to end, one part each.
    pub fn from_lines(lines: &Vec<Vec<P>>) -> (r: Self)
        requires
            concat_all(lines@.map_values(|l: Vec<P>| l@)).len() <= i32::MAX,
        ensures
            r.points@ == concat_all(lines@.map_values(|l: Vec<P>| l@)),
            r.parts@ == ring_starts(lines@.map_values(|l: Vec<P>| l@)),
            r.bbox == bbox_of(r.points@),
    {
        let ghost ls = lines@.map_values(|l: Vec<P>| l@);
        let mut points: Vec<P> = Vec::new();
        let mut parts: Vec<i32> = Vec::new();
        let mut k: usize = 0;
        assert(ls.take(0) =~= Seq::<Seq<P>>::empty());
        while k < lines.len()
            invariant
                k <= lines@.len(),
                ls == lines@.map_values(|l: Vec<P>| l@),
                concat_all(ls).len() <= i32::MAX,
                points@ == concat_all(ls.take(k as int)),
                parts@ == ring_starts(ls).take(k as int),
            decreases lines@.len() - k,
        {
            proof {
                lemma_concat_prefix_len(ls, k as int);
            }
            parts.push(points.len() as i32);
            append_ring(&mut points, &lines[k], false);
            assert(ls.take(k + 1).drop_last() =~= ls.take(k as int));
            k = k + 1;
            assert(points@ =~= concat_all(ls.take(k as int)));
            assert(parts@ =~= ring_starts(ls).take(k as int));
        }
        assert(ls.take(k as int) =~= ls);
        assert(ring_starts(ls).take(k as int) =~= ring_starts(ls));
        GenericPolyline::new(points, parts)
    }
}

/// The points of each polygon.
pub open spec fn points_of<P>(vs: Seq<(BBox, Seq<i32>, Seq<P>)>) -> Seq<Seq<P>> {
    vs.map_values(|v: (BBox, Seq<i32>, Seq<P>)| v.2)
}

/// Each part moved on by `by` points.
pub open spec fn shifted(parts: Seq<i32>, by: int) -> Seq<i32> {
    parts.map_values(|p: i32| (p + by) as i32)
}

/// The parts of the polygons once their points are laid end to end.
pub open spec fn merged_parts<P>(vs: Seq<(BBox, Seq<i32>, Seq<P>)>) -> Seq<i32>
    decreases vs.len(),
{
    if vs.len() == 0 {
        Seq::empty()
    } else {
        merged_parts(vs.drop_last()) + shifted(
            vs.last().1,
            concat_all(points_of(vs.drop_last())).len() as int,
        )
    }
}

/// Each polygon's parts lie within its own points.
pub open spec fn parts_within<P>(vs: Seq<(BBox, Seq<i32>, Seq<P>)>) -> bool {
    forall|j: int, k: int|
        0 <= j < vs.len() && 0 <= k < vs[j].1.len() ==> 0 <= #[trigger] vs[j].1[k] <= vs[j].2.len()
}

pub open spec fn polygon_views<P>(polygons: Seq<GenericPolygon<P>>) -> Seq<(BBox, Seq<i32>, Seq<P>)> {
    polygons.map_values(|p: GenericPolygon<P>| p@)
}

impl<P: HasXY + Copy> GenericPolygon<P> {
    /// One polygon holding all the rings of `polygons`: their points laid end
    /// to end, and each one's parts moved on by the points before it.
    pub fn merge(polygons: &Vec<GenericPolygon<P>>) -> (r: Self)
        requires
            parts_within(polygon_views(polygons@)),
            concat_all(points_of(polygon_views(polygons@))).len() <= i32::MAX,
        ensures
            r.points@ == concat_all(points_of(polygon_views(polygons@))),
            r.parts@ == merged_parts(polygon_views(polygons@)),
            r.bbox == bbox_of(r.points@),
    {
        let ghost vs = polygon_views(polygons@);
        let mut points: Vec<P> = Vec::new();
        let mut parts: Vec<i32> = Vec::new();
        let mut j: usize = 0;
        assert(vs.take(0) =~= Seq::<(BBox, Seq<i32>, Seq<P>)>::empty());
        assert(points_of(vs.take(0)) =~= Seq::<Seq<P>>::empty());
        while j < polygons.len()
            invariant
                j <= polygons@.len(),
                vs == polygon_views(polygons@),
                parts_within(vs),
                concat_all(points_of(vs)).len() <= i32::MAX,
                points@ == concat_all(points_of(vs.take(j as int))),
                parts@ == merged_parts(vs.take(j as int)),
            decreases polygons@.len() - j,
        {
            proof {
                assert(points_of(vs.take(j + 1)) =~= points_of(vs).take(j + 1));
                lemma_concat_prefix_len(points_of(vs), j + 1);
                assert(vs.take(j + 1).drop_last() =~= vs.take(j as int));
                assert(points_of(vs.take(j + 1)).drop_last() =~= points_of(vs.take(j as int)));
            }
            let offset = points.len();
            let poly = &polygons[j];
            let ghost before = parts@;
            let mut k: usize = 0;
            while k < poly.parts.len()
                invariant
                    k <= poly.parts@.len(),
                    vs == polygon_views(polygons@),
                    j < polygons@.len(),
                    poly == polygons@[j as int],
                    parts_within(vs),
                    offset + poly.points@.len() <= i32::MAX,
                    parts@ == before + shifted(poly.parts@, offset as int).take(k as int),
                decreases poly.parts@.len() - k,
            {
                assert(vs[j as int].1[k as int] == poly.parts@[k as int]);
                parts.push(poly.parts[k] + offset as i32);
                k = k + 1;
                assert(parts@ =~= before + shifted(poly.parts@, offset as int).take(k as int));
            }
            append_ring(&mut points, &poly.points, false);
            assert(shifted(poly.parts@, offset as int).take(k as int) =~= shifted(poly.parts@, offset as int));
            j = j + 1;
            assert(points@ =~= concat_all(points_of(vs.take(j as int))));
            assert(parts@ =~= merged_parts(vs.take(j as int)));
        }
        assert(vs.take(j as int) =~= vs);
        GenericPolygon::new(points, parts)
    }
}

/// How many of the flags hold.
pub open spec fn count_outer(is_outer: Seq<bool>) -> nat
    decreases is_outer.len(),
{
    if is_outer.len() == 0 {
        0
    } else {
        count_outer(is_outer.drop_last()) + if is_outer.last() {
            1nat
        } else {
            0nat
        }
    }
}

/// The polygon that ring `k` belongs to: each outer ring starts a new
/// polygon, each inner ring belongs to the last one started.
pub open spec fn ring_owner(is_outer: Seq<bool>, k: int) -> int {
    count_outer(is_outer.take(k + 1)) - 1
}

proof fn lemma_count_outer_bounds(is_outer: Seq<bool>)
    ensures
        count_outer(is_outer) <= is_outer.len(),
    decreases is_outer.len(),
{
    if is_outer.len() > 0 {
        lemma_count_outer_bounds(is_outer.drop_last());
    }
}

/// Groups the rings of a polygon, given which of them have the orientation
/// of an outer ring, into polygons with holes: gives for each ring the
/// polygon it belongs to. `MalformedShape` when the first ring is an inner
/// ring, which no polygon can own.
pub fn group_rings(is_outer: &Vec<bool>) -> (r: Result<Vec<usize>, Error>)
    ensures
        is_outer@.len() > 0 && !is_outer@[0] ==> r == Err::<Vec<usize>, Error>(Error::MalformedShape),
        !(is_outer@.len() > 0 && !is_outer@[0]) ==> r is Ok && r->Ok_0@.len() == is_outer@.len()
            && forall|k: int| 0 <= k < is_outer@.len() ==> #[trigger] r->Ok_0@[k] == ring_owner(is_outer@, k),
{
    if is_outer.len() > 0 && !is_outer[0] {
        return Err(Error::MalformedShape);
    }
    let mut owners: Vec<usize> = Vec::new();
    let mut count: usize = 0;
    let mut k: usize = 0;
    while k < is_outer.len()
        invariant
            k <= is_outer@.len(),
            k > 0 ==> is_outer@[0],
            is_outer@.len() > 0 ==> is_outer@[0],
            count == count_outer(is_outer@.take(k as int)),
            owners@.len() == k,
            forall|j: int| 0 <= j < k ==> #[trigger] owners@[j] == ring_owner(is_outer@, j),
        decreases is_outer@.len() - k,
    {
        proof {
            lemma_count_outer_bounds(is_outer@.take(k as int));
        }
        assert(is_outer@.take(k + 1).drop_last() =~= is_outer@.take(k as int));
        if is_outer[k] {
            count = count + 1;
        }
        proof {
            if k == 0 {
                assert(is_outer@.take(1).drop_last() =~= Seq::<bool>::empty());
            }
            assert(count >= 1) by {
                if k > 0 {
                    assert(is_outer@.take(k as int).take(1) =~= is_outer@.take(1));
                    lemma_count_monotone(is_outer@.take(k as int), 1);
                    assert(is_outer@.take(1).drop_last() =~= Seq::<bool>::empty());
                }
            }
        }
        owners.push(count - 1);
        k = k + 1;
    }
    Ok(owners)
}

proof fn lemma_count_monotone(s: Seq<bool>, j: int)
    requires
        0 <= j <= s.len(),
    ensures
        count_outer(s.take(j)) <= count_outer(s),
    decreases s.len(),
{
    if j < s.len() {
        assert(s.take(j) =~= s.drop_last().take(j));
        lemma_count_monotone(s.drop_last(), j);
    } else {
        assert(s.take(j) =~= s);
    }
}

} // verus!
