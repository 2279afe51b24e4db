use shapefile::error::Error;
use shapefile::multipoint::{multipoint_size_of_record, Multipoint, MultipointM, MultipointZ};
use shapefile::point::{Point, PointM, PointZ, NO_DATA};
use shapefile::poly::{part_points, PointKind, Polygon, PolygonM, Polyline, PolylineZ};
use shapefile::record::{read_record, write_record, Shape};
use shapefile::rings::group_rings;
use shapefile::shape_type::ShapeType;

fn p(x: f64, y: f64) -> Point {
    Point::new(x.to_bits(), y.to_bits())
}

fn round_trip(number: i32, shape: Shape) {
    let mut out = vec![9u8, 9];
    assert_eq!(write_record(&mut out, number, &shape), Ok(()));
    let framed = &out[2..];
    let words = i32::from_be_bytes([framed[4], framed[5], framed[6], framed[7]]);
    assert_eq!(8 + 2 * words as usize, framed.len());
    let mut with_tail = framed.to_vec();
    with_tail.extend_from_slice(&[1, 2, 3]);
    let (n, back, used) = read_record(&with_tail, shape.shape_type()).unwrap();
    assert_eq!(n, number);
    assert_eq!(back, shape);
    assert_eq!(used, framed.len());
}

#[test]
fn records_round_trip_for_every_variant() {
    round_trip(1, Shape::NullShape);
    round_trip(2, Shape::Point(p(1.5, -2.5)));
    round_trip(3, Shape::PointM(PointM::new(1, 2, 3)));
    round_trip(4, Shape::PointZ(PointZ::new(1, 2, 3, 4)));
    round_trip(5, Shape::Polyline(Polyline::new(vec![p(1.0, 1.0), p(2.0, 2.0), p(3.0, 3.0)], vec![0, 1])));
    let ring = vec![p(0.0, 0.0), p(0.0, 1.0), p(1.0, 1.0), p(0.0, 0.0)];
    round_trip(6, Shape::Polygon(Polygon::new(ring, vec![0])));
    let ring_m: Vec<PointM> = vec![PointM::new(0, 0, 7), PointM::new(5, 5, NO_DATA), PointM::new(0, 0, 7)];
    round_trip(7, Shape::PolygonM(PolygonM::new(ring_m, vec![0])));
    let zs = vec![PointZ::new(1, 2, 3, 4), PointZ::new(5, 6, 7, 8)];
    round_trip(8, Shape::PolylineZ(PolylineZ::new(zs.clone(), vec![0])));
    round_trip(9, Shape::Multipoint(Multipoint::new(vec![p(1.0, 2.0), p(-1.0, 0.5)])));
    round_trip(10, Shape::MultipointM(MultipointM::new(vec![PointM::new(1, 2, 3)])));
    round_trip(11, Shape::MultipointZ(MultipointZ::new(zs)));
}

#[test]
fn record_framing_bytes() {
    let mut out = Vec::new();
    write_record(&mut out, 3, &Shape::Point(p(1.0, 2.0))).unwrap();
    assert_eq!(out.len(), 28);
    assert_eq!(&out[0..4], &3i32.to_be_bytes());
    assert_eq!(&out[4..8], &10i32.to_be_bytes());
    assert_eq!(&out[8..12], &1i32.to_le_bytes());
    assert_eq!(&out[12..20], &1.0f64.to_le_bytes());
}

#[test]
fn null_records_are_accepted_in_any_file() {
    let mut out = Vec::new();
    write_record(&mut out, 1, &Shape::NullShape).unwrap();
    assert_eq!(out.len(), 12);
    assert_eq!(read_record(&out, ShapeType::Polygon), Ok((1, Shape::NullShape, 12)));
}

#[test]
fn mismatched_record_type_is_rejected() {
    let mut out = Vec::new();
    write_record(&mut out, 1, &Shape::Point(p(1.0, 2.0))).unwrap();
    assert_eq!(
        read_record(&out, ShapeType::Polyline),
        Err(Error::MismatchedShapeType { requested: ShapeType::Polyline, actual: ShapeType::Point })
    );
}

#[test]
fn unknown_record_tag_is_rejected() {
    let mut out = Vec::new();
    write_record(&mut out, 1, &Shape::Point(p(1.0, 2.0))).unwrap();
    out[8..12].copy_from_slice(&4i32.to_le_bytes());
    assert_eq!(read_record(&out, ShapeType::Point), Err(Error::InvalidShapeType(4)));
    assert_eq!(read_record(&out[..11], ShapeType::Point), Err(Error::IoError));
}

#[test]
fn point_m_without_measure_reads_no_data() {
    let mut out = Vec::new();
    write_record(&mut out, 1, &Shape::PointM(PointM::new(1, 2, 3))).unwrap();
    // keep x and y only: content length 2 + 8 words
    let mut short = out[..28].to_vec();
    short[4..8].copy_from_slice(&10i32.to_be_bytes());
    let (_, shape, used) = read_record(&short, ShapeType::PointM).unwrap();
    assert_eq!(shape, Shape::PointM(PointM::new(1, 2, NO_DATA)));
    assert_eq!(used, 28);
    short[4..8].copy_from_slice(&11i32.to_be_bytes());
    short.extend_from_slice(&[0u8; 8]);
    assert_eq!(read_record(&short, ShapeType::PointM), Err(Error::InvalidShapeRecordSize));
}

#[test]
fn malformed_shape_writes_nothing() {
    let mut out = vec![1u8];
    let bad = Shape::Polyline(Polyline::new(vec![p(1.0, 1.0)], vec![0, 0]));
    assert_eq!(write_record(&mut out, 1, &bad), Err(Error::MalformedShape));
    assert_eq!(out, vec![1u8]);
}

#[test]
fn multipoint_sizes_and_missing_m() {
    assert_eq!(multipoint_size_of_record(PointKind::Plain, 2, true), 36 + 32);
    assert_eq!(multipoint_size_of_record(PointKind::Z, 2, true), 36 + 32 + 32 + 32);
    assert_eq!(multipoint_size_of_record(PointKind::Z, 2, false), 36 + 32 + 32);
    let mp = MultipointZ::new(vec![PointZ::new(1, 2, 3, 4), PointZ::new(5, 6, 7, 8)]);
    let mut out = Vec::new();
    mp.write_to(&mut out);
    assert_eq!(out.len(), 132);
    let short = MultipointZ::read_shape_content(&out[..100], 100).unwrap();
    assert_eq!(short.points[1], PointZ::new(5, 6, 7, NO_DATA));
    assert_eq!(MultipointZ::read_shape_content(&out, 120), Err(Error::InvalidShapeRecordSize));
}

fn signed_area(ring: &[Point]) -> f64 {
    let mut sum = 0.0;
    for w in ring.windows(2) {
        let (x0, y0) = (f64::from_bits(w[0].x), f64::from_bits(w[0].y));
        let (x1, y1) = (f64::from_bits(w[1].x), f64::from_bits(w[1].y));
        sum += (x1 - x0) * (y1 + y0);
    }
    sum
}

#[test]
fn exterior_ring_is_turned_clockwise() {
    let ccw = vec![p(0.0, 0.0), p(1.0, 0.0), p(1.0, 1.0), p(0.0, 1.0), p(0.0, 0.0)];
    let is_outer = signed_area(&ccw) >= 0.0;
    assert!(!is_outer);
    let poly = Polygon::from_rings(&ccw, is_outer, &vec![], &vec![]);
    let expected: Vec<Point> = ccw.iter().rev().cloned().collect();
    assert_eq!(poly.points, expected);
    assert_eq!(poly.parts, vec![0]);
    assert!(signed_area(&poly.points) >= 0.0);
}

#[test]
fn interior_rings_follow_the_exterior() {
    let cw = vec![p(0.0, 0.0), p(0.0, 4.0), p(4.0, 4.0), p(4.0, 0.0), p(0.0, 0.0)];
    let hole_cw = vec![p(1.0, 1.0), p(1.0, 2.0), p(2.0, 2.0), p(1.0, 1.0)];
    let hole_ccw = vec![p(3.0, 3.0), p(3.5, 3.0), p(3.5, 3.5), p(3.0, 3.0)];
    let flags = vec![signed_area(&hole_cw) >= 0.0, signed_area(&hole_ccw) >= 0.0];
    assert_eq!(flags, vec![true, false]);
    let poly = Polygon::from_rings(&cw, true, &vec![hole_cw.clone(), hole_ccw.clone()], &flags);
    assert_eq!(poly.parts, vec![0, 5, 9]);
    assert_eq!(poly.points.len(), 13);
    assert_eq!(&poly.points[0..5], &cw[..]);
    let turned: Vec<Point> = hole_cw.iter().rev().cloned().collect();
    assert_eq!(&poly.points[5..9], &turned[..]);
    assert_eq!(&poly.points[9..13], &hole_ccw[..]);
    assert_eq!(f64::from_bits(poly.bbox.xmax), 4.0);
    let empty = Polygon::from_rings(&vec![], true, &vec![hole_cw], &vec![true]);
    assert!(empty.points.is_empty() && empty.parts.is_empty());
}

#[test]
fn rings_are_grouped_by_outer_rings() {
    assert_eq!(group_rings(&vec![true, false, false, true, false]), Ok(vec![0, 0, 0, 1, 1]));
    assert_eq!(group_rings(&vec![]), Ok(vec![]));
    assert_eq!(group_rings(&vec![false, true]), Err(Error::MalformedShape));
}

#[test]
fn lines_are_laid_end_to_end() {
    let a = vec![p(0.0, 0.0), p(1.0, 1.0)];
    let b = vec![p(2.0, 2.0), p(3.0, 3.0), p(4.0, -1.0)];
    let line = Polyline::from_lines(&vec![a.clone(), b.clone()]);
    assert_eq!(line.parts, vec![0, 2]);
    let mut all = a;
    all.extend(b);
    assert_eq!(line.points, all);
    assert_eq!(f64::from_bits(line.bbox.ymin), -1.0);
    assert_eq!(f64::from_bits(line.bbox.xmax), 4.0);
}

#[test]
fn polygons_are_merged_with_shifted_parts() {
    let a = Polygon::new(vec![p(0.0, 0.0), p(0.0, 1.0), p(1.0, 1.0), p(0.0, 0.0)], vec![0]);
    let b = Polygon::new(
        vec![p(5.0, 5.0), p(5.0, 6.0), p(6.0, 5.0), p(5.0, 5.0), p(5.2, 5.2), p(5.3, 5.2), p(5.2, 5.2)],
        vec![0, 4],
    );
    let merged = Polygon::merge(&vec![a.clone(), b.clone()]);
    assert_eq!(merged.parts, vec![0, 4, 8]);
    assert_eq!(merged.points.len(), 11);
    assert_eq!(&merged.points[4..], &b.points[..]);
    assert_eq!(f64::from_bits(merged.bbox.xmax), 6.0);
    let mut out = Vec::new();
    assert_eq!(merged.write_to(&mut out), Ok(()));
}

#[test]
fn part_points_split_a_shape() {
    let pts = vec![p(0.0, 0.0), p(1.0, 1.0), p(2.0, 2.0), p(3.0, 3.0), p(4.0, 4.0)];
    let split = part_points(&pts, &vec![0, 2, 3]);
    assert_eq!(split, vec![pts[0..2].to_vec(), pts[2..3].to_vec(), pts[3..5].to_vec()]);
}
