use vstd::prelude::*;
use vstd::slice::{slice_subrange, slice_to_vec};
use vstd::utf8::{decode_utf8, valid_utf8};
use crate::bytes::{be_bytes, be_value, lemma_be_round_trip, push_all, u32_from_be, u32_to_be};
use crate::chunk_type::{parse_tag, valid_tag, ChunkType};
use crate::error::{ChunkEncodingError, Error};

verus! {

/// The CRC-32/ISO-HDLC checksum of a byte sequence (the one zlib and PNG use).
pub uninterp spec fn crc32_of(bytes: Seq<u8>) -> u32;

/// The text that lossy UTF-8 decoding makes of a byte sequence.
pub uninterp spec fn lossy_utf8(bytes: Seq<u8>) -> Seq<char>;

/// Relies on crc's `Crc::<u32>::checksum` under the `CRC_32_ISO_HDLC` parameters:
/// the checksum is a function of the bytes alone.
#[verifier::external_body]
fn crc32(bytes: &[u8]) -> (r: u32)
    ensures
        r == crc32_of(bytes@),
{
    crc::Crc::<u32>::new(&crc::CRC_32_ISO_HDLC).checksum(bytes)
}

/// Relies on std's `String::from_utf8_lossy`: it depends on the bytes alone, and
/// valid UTF-8 is decoded as it is.
#[verifier::external_body]
fn utf8_lossy(bytes: &[u8]) -> (r: String)
    ensures
        r@ == lossy_utf8(bytes@),
        valid_utf8(bytes@) ==> r@ == decode_utf8(bytes@),
{
    String::from_utf8_lossy(bytes).into_owned()
}

/// What a chunk holds: its type tag and its data.
pub ghost struct ChunkModel {
    pub tag: Seq<u8>,
    pub data: Seq<u8>,
}

/// A chunk's type is a valid tag and its data's size fits the length field.
pub open spec fn well_formed(c: ChunkModel) -> bool {
    valid_tag(c.tag) && c.data.len() <= u32::MAX
}

/// The bytes of a chunk on the wire: length, type, data, CRC of type and data.
pub open spec fn chunk_bytes(tag: Seq<u8>, data: Seq<u8>) -> Seq<u8> {
    be_bytes(data.len() as u32) + tag + data + be_bytes(crc32_of(tag + data))
}

/// What the checks on a chunk's declared fields decide, given the CRC that was
/// computed: a CRC mismatch comes first, then a length mismatch.
pub open spec fn declared_check(computed_crc: u32, declared_crc: u32, data_len: int, declared_length: u32) -> Result<(), ChunkEncodingError> {
    if declared_crc != computed_crc {
        Err(ChunkEncodingError::InvalidCrc(declared_crc))
    } else if declared_length as int != data_len {
        Err(ChunkEncodingError::InvalidLength(declared_length))
    } else {
        Ok(())
    }
}

/// What reading one chunk from exactly the bytes `b` gives.
pub open spec fn parse_chunk(b: Seq<u8>) -> Result<ChunkModel, Error> {
    if b.len() < 12 {
        Err(Error::Chunk(ChunkEncodingError::Truncated(b.len() as usize)))
    } else {
        let tag = b.subrange(4, 8);
        let data = b.subrange(8, b.len() - 4);
        let length = be_value(b.subrange(0, 4));
        let crc = be_value(b.subrange(b.len() - 4, b.len() as int));
        match parse_tag(tag) {
            Err(e) => Err(Error::ChunkType(e)),
            Ok(_) => match declared_check(crc32_of(tag + data), crc, data.len() as int, length) {
                Err(e) => Err(Error::Chunk(e)),
                Ok(_) => Ok(ChunkModel { tag, data }),
            },
        }
    }
}

/// The parts of a chunk's bytes: declared length, type, data, declared CRC.
proof fn lemma_chunk_bytes_parts(tag: Seq<u8>, data: Seq<u8>)
    requires
        valid_tag(tag),
        data.len() <= u32::MAX,
    ensures
        ({
            let b = chunk_bytes(tag, data);
            &&& b.len() == 12 + data.len()
            &&& be_value(b.subrange(0, 4)) as int == data.len()
            &&& b.subrange(4, 8) == tag
            &&& b.subrange(8, b.len() - 4) == data
            &&& b.subrange(4, b.len() - 4) == tag + data
            &&& be_value(b.subrange(b.len() - 4, b.len() as int)) == crc32_of(tag + data)
        }),
{
    let b = chunk_bytes(tag, data);
    let n = b.len();
    lemma_be_round_trip(data.len() as u32);
    lemma_be_round_trip(crc32_of(tag + data));
    assert(b.subrange(0, 4) =~= be_bytes(data.len() as u32));
    assert(b.subrange(4, 8) =~= tag);
    assert(b.subrange(8, n - 4) =~= data);
    assert(b.subrange(4, n - 4) =~= tag + data);
    assert(b.subrange(n - 4, n as int) =~= be_bytes(crc32_of(tag + data)));
}

/// A chunk's bytes declare its data's size, and are twelve bytes longer than it.
pub proof fn lemma_chunk_bytes_len(tag: Seq<u8>, data: Seq<u8>)
    requires
        valid_tag(tag),
        data.len() <= u32::MAX,
    ensures
        chunk_bytes(tag, data).len() == 12 + data.len(),
        be_value(chunk_bytes(tag, data).subrange(0, 4)) as int == data.len(),
{
    lemma_chunk_bytes_parts(tag, data);
}

/// Reading back the bytes of a chunk gives the same type and data (and so the
/// same length and CRC).
pub proof fn lemma_chunk_round_trip(tag: Seq<u8>, data: Seq<u8>)
    requires
        valid_tag(tag),
        data.len() <= u32::MAX,
    ensures
        parse_chunk(chunk_bytes(tag, data)) == Ok::<ChunkModel, Error>(ChunkModel { tag, data }),
{
    lemma_chunk_bytes_parts(tag, data);
}

/// A chunk whose type or data bytes were changed in one place, its CRC left as
/// it was, is refused for its CRC, whenever the change alters the checksum and
/// leaves the type made of letters.
pub proof fn lemma_corrupted_chunk_refused(tag: Seq<u8>, data: Seq<u8>, i: int, v: u8)
    requires
        valid_tag(tag),
        data.len() <= u32::MAX,
        4 <= i < 8 + data.len(),
        valid_tag(chunk_bytes(tag, data).update(i, v).subrange(4, 8)),
        crc32_of(chunk_bytes(tag, data).update(i, v).subrange(4, 8 + data.len() as int)) != crc32_of(tag + data),
    ensures
        parse_chunk(chunk_bytes(tag, data).update(i, v))
            == Err::<ChunkModel, Error>(Error::Chunk(ChunkEncodingError::InvalidCrc(crc32_of(tag + data)))),
{
    lemma_chunk_bytes_parts(tag, data);
    let b = chunk_bytes(tag, data);
    let m = b.update(i, v);
    let n = m.len();
    assert(n == b.len() && n == 12 + data.len());
    let crc_field = m.subrange(n - 4, n as int);
    assert(crc_field =~= b.subrange(n - 4, n as int));
    let covered = m.subrange(4, n - 4);
    assert(covered =~= m.subrange(4, 8) + m.subrange(8, n - 4));
    assert(n - 4 == 8 + data.len());
    assert(parse_tag(m.subrange(4, 8)) is Ok);
}

/// One unit of a PNG file: a typed, length-prefixed, CRC-protected run of bytes.
#[derive(Debug)]
pub struct Chunk {
    length: u32,
    chunk_type: ChunkType,
    chunk_data: Vec<u8>,
    crc: u32,
}

impl View for Chunk {
    type V = ChunkModel;

    closed spec fn view(&self) -> ChunkModel {
        ChunkModel { tag: self.chunk_type@, data: self.chunk_data@ }
    }
}

/// Decides a parsed chunk's fate from the CRC computed over its type and data
/// and the length and CRC that its bytes declared.
pub fn check_declared(computed_crc: u32, declared_crc: u32, data_len: usize, declared_length: u32) -> (r: Result<(), ChunkEncodingError>)
    ensures
        r == declared_check(computed_crc, declared_crc, data_len as int, declared_length),
{
    if declared_crc != computed_crc {
        Err(ChunkEncodingError::InvalidCrc(declared_crc))
    } else if declared_length as usize != data_len {
        Err(ChunkEncodingError::InvalidLength(declared_length))
    } else {
        Ok(())
    }
}

impl Chunk {
    #[verifier::type_invariant]
    spec fn inv(&self) -> bool {
        &&& valid_tag(self.chunk_type@)
        &&& self.chunk_data@.len() <= u32::MAX
        &&& self.length as int == self.chunk_data@.len()
        &&& self.crc == crc32_of(self.chunk_type@ + self.chunk_data@)
    }

    /// A chunk of the given type and data; its length and CRC are computed.
    pub fn new(chunk_type: ChunkType, chunk_data: Vec<u8>) -> (r: Chunk)
        requires
            chunk_data@.len() <= u32::MAX,
        ensures
            r@ == (ChunkModel { tag: chunk_type@, data: chunk_data@ }),
    {
        let tag = chunk_type.bytes();
        let mut covered: Vec<u8> = Vec::new();
        push_all(&mut covered, tag.as_slice());
        push_all(&mut covered, chunk_data.as_slice());
        let crc = crc32(covered.as_slice());
        Chunk { length: chunk_data.len() as u32, chunk_type, chunk_data, crc }
    }

    /// The number of data bytes.
    pub fn length(&self) -> (r: u32)
        ensures
            r as int == self@.data.len(),
    {
        proof {
            use_type_invariant(self);
        }
        self.length
    }

    /// The CRC over the type and data bytes.
    pub fn crc(&self) -> (r: u32)
        ensures
            r == crc32_of(self@.tag + self@.data),
    {
        proof {
            use_type_invariant(self);
        }
        self.crc
    }

    /// The chunk's type.
    pub fn chunk_type(&self) -> (r: &ChunkType)
        ensures
            r@ == self@.tag,
    {
        &self.chunk_type
    }

    /// The data bytes.
    pub fn data(&self) -> (r: &[u8])
        ensures
            r@ == self@.data,
    {
        self.chunk_data.as_slice()
    }

    /// The data as text; byte runs that are not UTF-8 become replacement
    /// characters, so this never fails.
    pub fn data_as_string(&self) -> (r: Result<String, Error>)
        ensures
            r is Ok,
            r->Ok_0@ == lossy_utf8(self@.data),
            valid_utf8(self@.data) ==> r->Ok_0@ == decode_utf8(self@.data),
    {
        Ok(utf8_lossy(self.chunk_data.as_slice()))
    }

    /// The chunk's bytes on the wire.
    pub fn as_bytes(&self) -> (r: Vec<u8>)
        ensures
            r@ == chunk_bytes(self@.tag, self@.data),
            well_formed(self@),
    {
        proof {
            use_type_invariant(self);
        }
        let mut out: Vec<u8> = Vec::new();
        let len = u32_to_be(self.length);
        push_all(&mut out, len.as_slice());
        let tag = self.chunk_type.bytes();
        push_all(&mut out, tag.as_slice());
        push_all(&mut out, self.chunk_data.as_slice());
        let crc = u32_to_be(self.crc);
        push_all(&mut out, crc.as_slice());
        out
    }

    /// Reads a chunk that spans exactly the bytes `bytes`.
    pub fn try_from(bytes: &[u8]) -> (r: Result<Chunk, Error>)
        ensures
            match r {
                Ok(c) => parse_chunk(bytes@) == Ok::<ChunkModel, Error>(c@),
                Err(e) => parse_chunk(bytes@) == Err::<ChunkModel, Error>(e),
            },
    {
        let n = bytes.len();
        if n < 12 {
            return Err(Error::Chunk(ChunkEncodingError::Truncated(n)));
        }
        let length = u32_from_be(bytes, 0);
        let crc = u32_from_be(bytes, n - 4);
        let tag: [u8; 4] = [bytes[4], bytes[5], bytes[6], bytes[7]];
        assert(tag@ =~= bytes@.subrange(4, 8));
        let chunk_type = match ChunkType::try_from(tag) {
            Ok(t) => t,
            Err(e) => return Err(Error::ChunkType(e)),
        };
        let covered = slice_subrange(bytes, 4, n - 4);
        let data_slice = slice_subrange(bytes, 8, n - 4);
        assert(covered@ =~= bytes@.subrange(4, 8) + data_slice@);
        let computed = crc32(covered);
        match check_declared(computed, crc, data_slice.len(), length) {
            Err(e) => return Err(Error::Chunk(e)),
            Ok(_) => {},
        }
        let chunk_data = slice_to_vec(data_slice);
        Ok(Chunk { length, chunk_type, chunk_data, crc })
    }
}

} // verus!
