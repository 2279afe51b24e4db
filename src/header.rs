//! The 100-byte file header.

use vstd::prelude::*;
use crate::bytes::{
    be_u32, be_u32_bytes, le_u64s_at, lemma_be_u32_round_trip, lemma_i32_u32_round_trip, lemma_le_u32_round_trip,
    lemma_le_u64s_len, lemma_le_u64s_read_back, le_u32, le_u32_bytes, le_u64s_bytes, push_bytes, read_be_u32,
    read_le_u32, read_le_u64, word_at, write_be_u32, write_le_u32, write_le_u64s,
};
use crate::error::Error;
use crate::shape_type::{lemma_tag_round_trip, tag_from_value, tag_value, ShapeType};

verus! {

pub const HEADER_SIZE: i32 = 100;

pub const FILE_CODE: i32 = 9994;

/// The header at the start of a shapefile. Coordinates are IEEE-754 bit patterns.
#[derive(Debug, Clone, Copy, PartialEq)]
pub struct Header {
    /// Total file length (header and shapes) in 16-bit words.
    pub file_length: i32,
    /// Least x, y and z over all the shapes.
    pub point_min: [u64; 3],
    /// Greatest x, y and z over all the shapes.
    pub point_max: [u64; 3],
    /// Least and greatest measure.
    pub m_range: [u64; 2],
    /// The type of every non-null shape of the file.
    pub shape_type: ShapeType,
    /// Version of the format.
    pub version: i32,
}

pub open spec fn default_header() -> Header {
    Header {
        file_length: 50,
        point_min: [0u64, 0u64, 0u64],
        point_max: [0u64, 0u64, 0u64],
        m_range: [0u64, 0u64],
        shape_type: ShapeType::NullShape,
        version: 1000,
    }
}

impl Default for Header {
    fn default() -> (r: Header)
        ensures
            r == default_header(),
    {
        Header {
            file_length: HEADER_SIZE / 2,
            point_min: [0u64, 0u64, 0u64],
            point_max: [0u64, 0u64, 0u64],
            m_range: [0u64, 0u64],
            shape_type: ShapeType::NullShape,
            version: 1000,
        }
    }
}

/// The eight coordinates of the header, in their wire order.
pub open spec fn header_coords(h: Header) -> Seq<u64> {
    seq![
        h.point_min[0],
        h.point_min[1],
        h.point_max[0],
        h.point_max[1],
        h.point_min[2],
        h.point_max[2],
        h.m_range[0],
        h.m_range[1],
    ]
}

/// The 100 bytes that encode `h`.
pub open spec fn header_bytes(h: Header) -> Seq<u8> {
    be_u32_bytes(FILE_CODE as u32) + Seq::new(20, |i: int| 0u8) + be_u32_bytes(h.file_length as u32)
        + le_u32_bytes(h.version as u32) + le_u32_bytes(tag_value(h.shape_type) as u32)
        + le_u64s_bytes(header_coords(h))
}

/// What reading a header from the bytes `s` gives.
pub open spec fn spec_read_header(s: Seq<u8>) -> Result<Header, Error> {
    let code = be_u32(s.subrange(0, 4)) as i32;
    if s.len() < 4 {
        Err(Error::IoError)
    } else if code != FILE_CODE {
        Err(Error::InvalidFileCode(code))
    } else if s.len() < 36 {
        Err(Error::IoError)
    } else {
        let tag = le_u32(s.subrange(32, 36)) as i32;
        match tag_from_value(tag) {
            None => Err(Error::InvalidShapeType(tag)),
            Some(t) => if s.len() < 100 {
                Err(Error::IoError)
            } else {
                Ok(
                    Header {
                        file_length: be_u32(s.subrange(24, 28)) as i32,
                        point_min: [word_at(s, 36), word_at(s, 44), word_at(s, 68)],
                        point_max: [word_at(s, 52), word_at(s, 60), word_at(s, 76)],
                        m_range: [word_at(s, 84), word_at(s, 92)],
                        shape_type: t,
                        version: le_u32(s.subrange(28, 32)) as i32,
                    },
                )
            },
        }
    }
}

/// Decoding the bytes of an encoded header gives the header back.
pub proof fn lemma_header_round_trip(h: Header)
    ensures
        spec_read_header(header_bytes(h)) == Ok::<Header, Error>(h),
{
    let s = header_bytes(h);
    let coords = header_coords(h);
    lemma_le_u64s_len(coords);
    assert(s.subrange(0, 4) =~= be_u32_bytes(FILE_CODE as u32));
    assert(s.subrange(24, 28) =~= be_u32_bytes(h.file_length as u32));
    assert(s.subrange(28, 32) =~= le_u32_bytes(h.version as u32));
    assert(s.subrange(32, 36) =~= le_u32_bytes(tag_value(h.shape_type) as u32));
    assert(s.subrange(36, 100) =~= le_u64s_bytes(coords));
    lemma_be_u32_round_trip(FILE_CODE as u32);
    lemma_be_u32_round_trip(h.file_length as u32);
    lemma_le_u32_round_trip(h.version as u32);
    lemma_le_u32_round_trip(tag_value(h.shape_type) as u32);
    lemma_i32_u32_round_trip(h.file_length);
    lemma_i32_u32_round_trip(h.version);
    lemma_i32_u32_round_trip(tag_value(h.shape_type));
    lemma_tag_round_trip(h.shape_type);
    lemma_le_u64s_read_back(s, 36, coords);
    let words = le_u64s_at(s, 36, 8);
    assert(word_at(s, 36) == words[0] && word_at(s, 44) == words[1] && word_at(s, 52) == words[2]);
    assert(word_at(s, 60) == words[3] && word_at(s, 68) == words[4] && word_at(s, 76) == words[5]);
    assert(word_at(s, 84) == words[6] && word_at(s, 92) == words[7]);
    let r = spec_read_header(s).unwrap();
    assert(r.point_min@ =~= h.point_min@);
    assert(r.point_max@ =~= h.point_max@);
    assert(r.m_range@ =~= h.m_range@);
    assert(s.len() == 100);
    assert(spec_read_header(s).is_ok());
    assert(r.file_length == h.file_length);
    assert(r.version == h.version);
    assert(r.shape_type == h.shape_type);
    assert(r.point_min == h.point_min);
    assert(r.point_max == h.point_max);
    assert(r.m_range == h.m_range);
}

/// Any header whose first four bytes, read big-endian, are not the file code
/// is refused with `InvalidFileCode` and that value.
pub proof fn lemma_wrong_file_code_rejected(s: Seq<u8>)
    requires
        s.len() >= 4,
        be_u32(s.subrange(0, 4)) as i32 != FILE_CODE,
    ensures
        spec_read_header(s) == Err::<Header, Error>(Error::InvalidFileCode(be_u32(s.subrange(0, 4)) as i32)),
{
}

impl Header {
    /// Reads the header at the start of `source`.
    pub fn read_from(source: &[u8]) -> (r: Result<Header, Error>)
        ensures
            r == spec_read_header(source@),
    {
        if source.len() < 4 {
            return Err(Error::IoError);
        }
        let file_code = read_be_u32(source, 0) as i32;
        if file_code != FILE_CODE {
            return Err(Error::InvalidFileCode(file_code));
        }
        if source.len() < 36 {
            return Err(Error::IoError);
        }
        let shape_type = ShapeType::from_i32(read_le_u32(source, 32) as i32)?;
        if source.len() < 100 {
            return Err(Error::IoError);
        }
        let file_length = read_be_u32(source, 24) as i32;
        let version = read_le_u32(source, 28) as i32;
        let xmin = read_le_u64(source, 36);
        let ymin = read_le_u64(source, 44);
        let xmax = read_le_u64(source, 52);
        let ymax = read_le_u64(source, 60);
        let zmin = read_le_u64(source, 68);
        let zmax = read_le_u64(source, 76);
        let mmin = read_le_u64(source, 84);
        let mmax = read_le_u64(source, 92);
        let hdr = Header {
            file_length,
            point_min: [xmin, ymin, zmin],
            point_max: [xmax, ymax, zmax],
            m_range: [mmin, mmax],
            shape_type,
            version,
        };
        assert(hdr == spec_read_header(source@).unwrap());
        Ok(hdr)
    }

    /// Appends the 100 bytes that encode the header to `dest`.
    pub fn write_to(&self, dest: &mut Vec<u8>)
        ensures
            final(dest)@ == old(dest)@ + header_bytes(*self),
    {
        write_be_u32(dest, FILE_CODE as u32);
        let skip = [0u8; 20];
        push_bytes(dest, &skip);
        write_be_u32(dest, self.file_length as u32);
        write_le_u32(dest, self.version as u32);
        write_le_u32(dest, self.shape_type.to_i32() as u32);
        let coords: [u64; 8] = [
            self.point_min[0],
            self.point_min[1],
            self.point_max[0],
            self.point_max[1],
            self.point_min[2],
            self.point_max[2],
            self.m_range[0],
            self.m_range[1],
        ];
        write_le_u64s(dest, &coords);
        assert(coords@ =~= header_coords(*self));
        assert(skip@ =~= Seq::new(20, |i: int| 0u8));
        assert(final(dest)@ =~= old(dest)@ + header_bytes(*self));
    }
}

} // verus!
