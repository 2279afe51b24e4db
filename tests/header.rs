use shapefile::error::Error;
use shapefile::header::Header;
use shapefile::shape_type::ShapeType;

#[test]
fn wrong_file_code() {
    let mut src: Vec<u8> = Vec::new();
    src.extend_from_slice(&42i32.to_be_bytes());
    let r = Header::read_from(&src);
    assert!(r.is_err());
    assert_eq!(r, Err(Error::InvalidFileCode(42)));
}

#[test]
fn header_defaults_encode_to_100_bytes() {
    let h = Header::default();
    assert_eq!(h.file_length, 50);
    assert_eq!(h.version, 1000);
    assert_eq!(h.shape_type, ShapeType::NullShape);
    let mut out = Vec::new();
    h.write_to(&mut out);
    assert_eq!(out.len(), 100);
    assert_eq!(&out[0..4], &9994i32.to_be_bytes());
    assert_eq!(&out[4..24], &[0u8; 20]);
    assert_eq!(&out[24..28], &50i32.to_be_bytes());
    assert_eq!(&out[28..32], &1000i32.to_le_bytes());
    assert_eq!(&out[32..36], &0i32.to_le_bytes());
    assert_eq!(Header::read_from(&out), Ok(h));
}

#[test]
fn header_round_trip_keeps_every_field() {
    let h = Header {
        file_length: 1234,
        point_min: [(-1.5f64).to_bits(), 2.25f64.to_bits(), 3.0f64.to_bits()],
        point_max: [10.0f64.to_bits(), 20.5f64.to_bits(), 30.0f64.to_bits()],
        m_range: [0.5f64.to_bits(), 7.0f64.to_bits()],
        shape_type: ShapeType::PolygonZ,
        version: 1000,
    };
    let mut out = vec![1u8, 2, 3];
    h.write_to(&mut out);
    assert_eq!(out.len(), 103);
    assert_eq!(&out[0..3], &[1u8, 2, 3]);
    assert_eq!(&out[3 + 36..3 + 44], &(-1.5f64).to_le_bytes());
    assert_eq!(&out[3 + 68..3 + 76], &3.0f64.to_le_bytes());
    assert_eq!(&out[3 + 32..3 + 36], &15i32.to_le_bytes());
    assert_eq!(Header::read_from(&out[3..]), Ok(h));
}

#[test]
fn header_short_input_is_io_error() {
    assert_eq!(Header::read_from(&[0u8, 0, 39]), Err(Error::IoError));
    let mut src = Vec::new();
    src.extend_from_slice(&9994i32.to_be_bytes());
    src.extend_from_slice(&[0u8; 40]);
    assert_eq!(Header::read_from(&src), Err(Error::IoError));
}

#[test]
fn header_unknown_shape_type_is_rejected() {
    let mut out = Vec::new();
    Header::default().write_to(&mut out);
    out[32..36].copy_from_slice(&2i32.to_le_bytes());
    assert_eq!(Header::read_from(&out), Err(Error::InvalidShapeType(2)));
}

#[test]
fn shape_type_tags() {
    assert_eq!(ShapeType::from_i32(23), Ok(ShapeType::PolylineM));
    assert_eq!(ShapeType::from_i32(7), Err(Error::InvalidShapeType(7)));
    assert_eq!(ShapeType::from_i32(-1), Err(Error::InvalidShapeType(-1)));
    assert_eq!(ShapeType::PolygonZ.to_i32(), 15);
    assert!(ShapeType::PolygonZ.has_z());
    assert!(ShapeType::PolygonZ.has_m());
    assert!(!ShapeType::Polygon.has_m());
    assert!(ShapeType::PolylineM.has_m());
    assert!(ShapeType::PolylineM.is_multipart());
    assert!(!ShapeType::Point.is_multipart());
    assert!(ShapeType::MultipointZ.is_multipoint());
}
