use shapefile::error::Error;
use shapefile::point::{is_no_data, BBox, Point, PointM, PointZ, NO_DATA};
use shapefile::poly::{size_of_record, PointKind, Polygon, PolygonZ, Polyline, PolylineM, PolylineZ};

fn p(x: f64, y: f64) -> Point {
    Point::new(x.to_bits(), y.to_bits())
}

fn pm(x: f64, y: f64, m: f64) -> PointM {
    PointM::new(x.to_bits(), y.to_bits(), m.to_bits())
}

fn f(bits: u64) -> f64 {
    f64::from_bits(bits)
}

#[test]
fn polyline_round_trip() {
    let line = Polyline::new(vec![p(1.0, 1.0), p(2.0, 2.0), p(3.0, 3.0), p(4.0, 4.0)], vec![0, 2]);
    assert_eq!(line.size_in_bytes(), 112);
    let mut out = Vec::new();
    assert_eq!(line.write_to(&mut out), Ok(()));
    assert_eq!(out.len(), 112);
    let back = Polyline::read_shape_content(&out, 112).unwrap();
    assert_eq!(back.points, line.points);
    assert_eq!(back.parts, line.parts);
    assert_eq!(back.bbox, line.bbox);
    assert_eq!(f(back.bbox.xmin), 1.0);
    assert_eq!(f(back.bbox.ymax), 4.0);
}

#[test]
fn polyline_m_optional_m_block() {
    let line = PolylineM::new(vec![pm(1.0, 2.0, 5.0), pm(3.0, 4.0, 6.0)], vec![0]);
    let mut with_m = Vec::new();
    assert_eq!(line.write_to(&mut with_m), Ok(()));
    assert_eq!(with_m.len(), 108);
    assert_eq!(size_of_record(PointKind::M, 2, 1, false), 76);
    assert_eq!(size_of_record(PointKind::M, 2, 1, true), 76 + 16 + 16);
    let without_m = &with_m[..76];
    let a = PolylineM::read_shape_content(&with_m, 108).unwrap();
    let b = PolylineM::read_shape_content(without_m, 76).unwrap();
    assert_eq!(a.points, line.points);
    for (pa, pb) in a.points.iter().zip(b.points.iter()) {
        assert_eq!((pa.x, pa.y), (pb.x, pb.y));
        assert_eq!(pb.m, NO_DATA);
        assert!(is_no_data(pb.m));
    }
    // the m range written covers the measures
    assert_eq!(&with_m[76..84], &5.0f64.to_le_bytes());
    assert_eq!(&with_m[84..92], &6.0f64.to_le_bytes());
}

#[test]
fn polygon_z_size_of_record() {
    // 40 bytes of box and counts, 3 parts, 10 points of x and y, the z range
    // and values, the m range and values
    assert_eq!(size_of_record(PointKind::Z, 10, 3, true), 40 + 12 + 160 + 16 + 80 + 16 + 80);
    assert_eq!(size_of_record(PointKind::Z, 10, 3, true), 404);
    assert_eq!(size_of_record(PointKind::Z, 10, 3, false), 404 - 96);
    assert_eq!(size_of_record(PointKind::Plain, 4, 2, true), 112);
}

#[test]
fn record_size_matching_neither_is_rejected() {
    let line = Polyline::new(vec![p(1.0, 1.0), p(2.0, 2.0)], vec![0]);
    let mut out = Vec::new();
    line.write_to(&mut out).unwrap();
    assert_eq!(Polyline::read_shape_content(&out, 80), Err(Error::InvalidShapeRecordSize));
    assert_eq!(Polyline::read_shape_content(&out, -4), Err(Error::InvalidShapeRecordSize));
    let linem = PolylineM::new(vec![pm(1.0, 1.0, 0.0)], vec![0]);
    let mut outm = Vec::new();
    linem.write_to(&mut outm).unwrap();
    assert_eq!(PolylineM::read_shape_content(&outm, 68), Err(Error::InvalidShapeRecordSize));
}

#[test]
fn short_content_is_io_error() {
    let line = Polyline::new(vec![p(1.0, 1.0), p(2.0, 2.0)], vec![0]);
    let mut out = Vec::new();
    line.write_to(&mut out).unwrap();
    assert_eq!(Polyline::read_shape_content(&out[..70], 76), Err(Error::IoError));
    assert_eq!(Polyline::read_shape_content(&out[..30], 76), Err(Error::IoError));
}

#[test]
fn invalid_parts_are_malformed() {
    let mut out = Vec::new();
    let starts_late = Polyline::new(vec![p(1.0, 1.0), p(2.0, 2.0)], vec![1]);
    assert_eq!(starts_late.write_to(&mut out), Err(Error::MalformedShape));
    let not_increasing = Polyline::new(vec![p(1.0, 1.0), p(2.0, 2.0), p(3.0, 3.0)], vec![0, 2, 2]);
    assert_eq!(not_increasing.write_to(&mut out), Err(Error::MalformedShape));
    let past_end = Polyline::new(vec![p(1.0, 1.0)], vec![0, 1]);
    assert_eq!(past_end.write_to(&mut out), Err(Error::MalformedShape));
    let no_parts = Polyline::new(vec![p(1.0, 1.0)], vec![]);
    assert_eq!(no_parts.write_to(&mut out), Err(Error::MalformedShape));
    assert!(out.is_empty());
    // a decoded parts array that does not start at 0
    let good = Polyline::new(vec![p(1.0, 1.0), p(2.0, 2.0)], vec![0]);
    good.write_to(&mut out).unwrap();
    out[40..44].copy_from_slice(&1i32.to_le_bytes());
    assert_eq!(Polyline::read_shape_content(&out, 76), Err(Error::MalformedShape));
}

#[test]
fn polygon_rings_must_close() {
    // writing checks only the parts; reading refuses a ring that does not close
    let open = Polygon::new(vec![p(0.0, 0.0), p(1.0, 1.0)], vec![0]);
    let mut out = Vec::new();
    assert_eq!(open.write_to(&mut out), Ok(()));
    let as_line: Polyline = open.clone().into();
    let mut line_out = Vec::new();
    assert_eq!(as_line.write_to(&mut line_out), Ok(()));
    assert_eq!(out, line_out);
    assert_eq!(Polygon::read_shape_content(&out, 76), Err(Error::MalformedShape));
    assert!(Polyline::read_shape_content(&out, 76).is_ok());
    let square = Polygon::new(
        vec![p(0.0, 0.0), p(0.0, 1.0), p(1.0, 1.0), p(1.0, 0.0), p(0.0, 0.0)],
        vec![0],
    );
    let mut sq = Vec::new();
    assert_eq!(square.write_to(&mut sq), Ok(()));
    let back = Polygon::read_shape_content(&sq, sq.len() as i32).unwrap();
    assert_eq!(back.points, square.points);
    assert_eq!(back.parts, vec![0]);
}

#[test]
fn polygon_z_ring_must_close_in_every_coordinate() {
    let pts = vec![
        PointZ::new(0, 0, 1, 5),
        PointZ::new(1, 0, 1, 5),
        PointZ::new(0, 0, 2, 5),
    ];
    let poly = PolygonZ::new(pts, vec![0]);
    let mut out = Vec::new();
    assert_eq!(poly.write_to(&mut out), Ok(()));
    assert_eq!(PolygonZ::read_shape_content(&out, out.len() as i32), Err(Error::MalformedShape));
}

#[test]
fn polygon_z_round_trip_with_three_rings() {
    let mut pts = Vec::new();
    for ring in 0..3 {
        let o = ring as f64 * 10.0;
        let first = PointZ::new(o.to_bits(), o.to_bits(), (ring as f64).to_bits(), NO_DATA);
        pts.push(first);
        pts.push(PointZ::new((o + 1.0).to_bits(), o.to_bits(), 2.0f64.to_bits(), 4.5f64.to_bits()));
        pts.push(PointZ::new(o.to_bits(), (o + 1.0).to_bits(), (-3.0f64).to_bits(), 1.5f64.to_bits()));
        pts.push(first);
    }
    let poly = PolygonZ::new(pts, vec![0, 4, 8]);
    let mut out = Vec::new();
    assert_eq!(poly.write_to(&mut out), Ok(()));
    assert_eq!(out.len() as u64, size_of_record(PointKind::Z, 12, 3, true));
    let back = PolygonZ::read_shape_content(&out, out.len() as i32).unwrap();
    assert_eq!(back.points, poly.points);
    assert_eq!(back.parts, poly.parts);
    assert_eq!(back.bbox, poly.bbox);
    let zr = 40 + 12 + 12 * 16;
    assert_eq!(&out[zr..zr + 8], &(-3.0f64).to_le_bytes());
    assert_eq!(&out[zr + 8..zr + 16], &2.0f64.to_le_bytes());
    // NO_DATA measures are left out of the m range
    let mr = zr + 16 + 12 * 8;
    assert_eq!(&out[mr..mr + 8], &1.5f64.to_le_bytes());
    assert_eq!(&out[mr + 8..mr + 16], &4.5f64.to_le_bytes());
    let without_m = &out[..mr];
    let short = PolygonZ::read_shape_content(without_m, mr as i32).unwrap();
    assert!(short.points.iter().all(|q| q.m == NO_DATA));
    // trailing bytes after the content are not read
    let mut longer = out.clone();
    longer.extend_from_slice(&[7u8; 5]);
    assert_eq!(PolygonZ::read_shape_content(&longer, out.len() as i32).unwrap(), back);
}

#[test]
fn bbox_of_points_and_of_nothing() {
    let line = PolylineZ::new(vec![], vec![0]);
    assert_eq!(line.bbox, BBox { xmin: 0, ymin: 0, xmax: 0, ymax: 0 });
    let l = Polyline::new(vec![p(-2.0, 5.0), p(3.5, -1.0), p(0.0, 0.0)], vec![0]);
    assert_eq!(f(l.bbox.xmin), -2.0);
    assert_eq!(f(l.bbox.xmax), 3.5);
    assert_eq!(f(l.bbox.ymin), -1.0);
    assert_eq!(f(l.bbox.ymax), 5.0);
}

#[test]
fn all_measures_missing_gives_zero_range() {
    let line = PolylineM::new(vec![pm(0.0, 0.0, -1e39), pm(1.0, 1.0, -2e38)], vec![0]);
    let mut out = Vec::new();
    line.write_to(&mut out).unwrap();
    assert_eq!(&out[76..92], &[0u8; 16]);
    assert!(is_no_data((-1e38f64).to_bits()));
    assert!(!is_no_data((-9e37f64).to_bits()));
    assert!(!is_no_data(f64::NAN.to_bits()));
    assert!(is_no_data(f64::NEG_INFINITY.to_bits()));
}

#[test]
fn ranges_and_conversions() {
    let pts = vec![
        PointZ::new(0, 0, (-1.0f64).to_bits(), NO_DATA),
        PointZ::new(0, 0, 2.5f64.to_bits(), 3.0f64.to_bits()),
        PointZ::new(0, 0, 0.5f64.to_bits(), (-4.0f64).to_bits()),
    ];
    let line = PolylineZ::new(pts, vec![0]);
    assert_eq!(line.z_range(), [(-1.0f64).to_bits(), 2.5f64.to_bits()]);
    assert_eq!(line.m_range(), [(-4.0f64).to_bits(), 3.0f64.to_bits()]);
    let poly: PolygonZ = line.clone().into();
    assert_eq!(poly.points, line.points);
    let back: PolylineZ = poly.into();
    assert_eq!(back, line);
    let none = PolylineM::new(vec![pm(1.0, 1.0, -1e39)], vec![0]);
    assert_eq!(none.m_range(), [0, 0]);
}
