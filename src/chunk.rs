//! A chunk: a length-prefixed, checksummed record of typed data.

use crate::chunk_type::ChunkType;
use crate::error::Error;
use crate::chunk_type::{is_tag_text, lemma_letters_ascii};
use crate::text::{
    ascii_text, hex_bytes, is_ascii_bytes, lemma_ascii_text, lemma_hex_ascii, lossy_string, lossy_text,
    push_hex, utf8_string,
};
use vstd::prelude::*;
use vstd::slice::{slice_subrange, slice_to_vec};
use vstd::utf8::{decode_utf8, valid_utf8};

verus! {

/// The CRC-32 (ISO-HDLC polynomial, as used by zlib and PNG) of a byte
/// sequence.
pub uninterp spec fn crc32_iso_hdlc(data: Seq<u8>) -> u32;

/// Relies on `crc::Crc::<u32>::checksum` under `crc::CRC_32_ISO_HDLC`: the
/// checksum depends on the bytes alone.
#[verifier::external_body]
fn checksum(data: &[u8]) -> (r: u32)
    ensures
        r == crc32_iso_hdlc(data@),
{
    crc::Crc::<u32>::new(&crc::CRC_32_ISO_HDLC).checksum(data)
}

/// The four big-endian bytes of `x`.
pub open spec fn be_bytes(x: u32) -> Seq<u8> {
    seq![(x >> 24) as u8, (x >> 16) as u8, (x >> 8) as u8, x as u8]
}

/// The number whose big-endian bytes are the first four of `s`.
pub open spec fn be_value(s: Seq<u8>) -> u32 {
    ((s[0] as u32) << 24) | ((s[1] as u32) << 16) | ((s[2] as u32) << 8) | (s[3] as u32)
}

/// What a chunk holds, as plain values.
pub ghost struct ChunkModel {
    pub length: u32,
    pub chunk_type: Seq<u8>,
    pub data: Seq<u8>,
    pub crc: u32,
}

/// A chunk whose length counts its data and whose checksum covers its type
/// and data.
pub open spec fn well_formed(m: ChunkModel) -> bool {
    &&& m.chunk_type.len() == 4
    &&& m.length == m.data.len()
    &&& m.crc == crc32_iso_hdlc(m.chunk_type + m.data)
}

/// The wire form of a chunk: length, type, data and checksum, the numbers
/// big-endian.
pub open spec fn chunk_bytes(m: ChunkModel) -> Seq<u8> {
    be_bytes(m.length) + m.chunk_type + m.data + be_bytes(m.crc)
}

/// What reading one chunk from the start of `s` gives; bytes past the chunk
/// are not read.
#[verifier::opaque]
pub open spec fn decode_result(s: Seq<u8>) -> Result<ChunkModel, Error> {
    if s.len() < 12 {
        Err(Error::Truncated)
    } else {
        let n = be_value(s) as int;
        if s.len() - 12 < n {
            Err(Error::Truncated)
        } else {
            let stored = be_value(s.subrange(8 + n, 12 + n));
            let computed = crc32_iso_hdlc(s.subrange(4, 8 + n));
            if stored != computed {
                Err(Error::ChecksumMismatch { stored, computed })
            } else {
                Ok(
                    ChunkModel {
                        length: n as u32,
                        chunk_type: s.subrange(4, 8),
                        data: s.subrange(8, 8 + n),
                        crc: stored,
                    },
                )
            }
        }
    }
}

/// Reading the big-endian bytes of a number gives the number back.
pub proof fn lemma_be_round_trip(x: u32)
    ensures
        be_value(be_bytes(x)) == x,
{
    let b0 = (x >> 24) as u8;
    let b1 = (x >> 16) as u8;
    let b2 = (x >> 8) as u8;
    let b3 = x as u8;
    assert(((b0 as u32) << 24) | ((b1 as u32) << 16) | ((b2 as u32) << 8) | (b3 as u32) == x)
        by (bit_vector)
        requires
            b0 == (x >> 24) as u8,
            b1 == (x >> 16) as u8,
            b2 == (x >> 8) as u8,
            b3 == x as u8,
    ;
}

/// Reading a chunk from its wire form, whatever follows it, gives the chunk
/// back.
pub proof fn lemma_decode_chunk_bytes(m: ChunkModel, rest: Seq<u8>)
    requires
        well_formed(m),
    ensures
        decode_result(chunk_bytes(m) + rest) == Ok::<ChunkModel, Error>(m),
{
    reveal(decode_result);
    let s = chunk_bytes(m) + rest;
    let n = m.length as int;
    lemma_be_round_trip(m.length);
    lemma_be_round_trip(m.crc);
    assert(s.subrange(0, 4) =~= be_bytes(m.length));
    assert(be_value(s) == be_value(s.subrange(0, 4)));
    assert(s.subrange(8 + n, 12 + n) =~= be_bytes(m.crc));
    assert(s.subrange(4, 8 + n) =~= m.chunk_type + m.data);
    assert(s.subrange(4, 8) =~= m.chunk_type);
    assert(s.subrange(8, 8 + n) =~= m.data);
}

/// Reading back the wire form of a well-formed chunk gives the same chunk.
pub proof fn lemma_chunk_round_trip(m: ChunkModel)
    requires
        well_formed(m),
    ensures
        decode_result(chunk_bytes(m)) == Ok::<ChunkModel, Error>(m),
{
    lemma_decode_chunk_bytes(m, Seq::empty());
    assert(chunk_bytes(m) + Seq::<u8>::empty() =~= chunk_bytes(m));
}

/// Reading a chunk's wire form in which one byte of the type or data was
/// replaced compares the stored checksum with the one of the altered type
/// and data: where the two differ, the read fails with `ChecksumMismatch`
/// reporting both.
pub proof fn lemma_altered_content_detected(m: ChunkModel, i: int, v: u8)
    requires
        well_formed(m),
        4 <= i < 8 + m.length,
        crc32_iso_hdlc(chunk_bytes(m).update(i, v).subrange(4, 8 + m.length)) != m.crc,
    ensures
        decode_result(chunk_bytes(m).update(i, v)) == Err::<ChunkModel, Error>(
            Error::ChecksumMismatch {
                stored: m.crc,
                computed: crc32_iso_hdlc(chunk_bytes(m).update(i, v).subrange(4, 8 + m.length)),
            },
        ),
{
    reveal(decode_result);
    let s = chunk_bytes(m);
    let t = s.update(i, v);
    let n = m.length as int;
    lemma_be_round_trip(m.length);
    lemma_be_round_trip(m.crc);
    assert(t.subrange(0, 4) =~= be_bytes(m.length));
    assert(be_value(t) == be_value(t.subrange(0, 4)));
    assert(t.subrange(8 + n, 12 + n) =~= be_bytes(m.crc));
}

/// The bytes of a chunk's diagnostic rendering: length, data and checksum
/// in upper-case hexadecimal, the type as it is, nothing between.
pub open spec fn display_bytes(m: ChunkModel) -> Seq<u8> {
    hex_bytes(be_bytes(m.length)) + m.chunk_type + hex_bytes(m.data) + hex_bytes(be_bytes(m.crc))
}

/// The rendering of a chunk whose type is made of letters is ASCII.
pub proof fn lemma_display_ascii(m: ChunkModel)
    requires
        is_tag_text(m.chunk_type),
    ensures
        is_ascii_bytes(display_bytes(m)),
{
    lemma_hex_ascii(be_bytes(m.length));
    lemma_hex_ascii(m.data);
    lemma_hex_ascii(be_bytes(m.crc));
    lemma_letters_ascii(m.chunk_type);
    let d = display_bytes(m);
    let a = hex_bytes(be_bytes(m.length));
    let t = m.chunk_type;
    let h = hex_bytes(m.data);
    let c = hex_bytes(be_bytes(m.crc));
    assert forall|i: int| 0 <= i < d.len() implies #[trigger] d[i] < 128 by {
        if i < a.len() {
            assert(d[i] == a[i]);
        } else if i < a.len() + t.len() {
            assert(d[i] == t[i - a.len()]);
        } else if i < a.len() + t.len() + h.len() {
            assert(d[i] == h[i - a.len() - t.len()]);
        } else {
            assert(d[i] == c[i - a.len() - t.len() - h.len()]);
        }
    }
}

/// One chunk, which owns its data.
pub struct Chunk {
    length: u32,
    chunk_type: ChunkType,
    data: Vec<u8>,
    crc: u32,
}

impl View for Chunk {
    type V = ChunkModel;

    closed spec fn view(&self) -> ChunkModel {
        ChunkModel {
            length: self.length,
            chunk_type: self.chunk_type@,
            data: self.data@,
            crc: self.crc,
        }
    }
}

impl Chunk {
    /// Every chunk is well formed.
    #[verifier::type_invariant]
    pub open spec fn inv(&self) -> bool {
        well_formed(self@)
    }

    /// The chunk of this type holding `data`; its length and checksum are
    /// derived from them.
    pub fn new(chunk_type: ChunkType, data: Vec<u8>) -> (r: Chunk)
        requires
            data@.len() <= u32::MAX,
        ensures
            r@ == (ChunkModel {
                length: data@.len() as u32,
                chunk_type: chunk_type@,
                data: data@,
                crc: crc32_iso_hdlc(chunk_type@ + data@),
            }),
    {
        proof {
            chunk_type.lemma_len();
        }
        let tag = chunk_type.bytes();
        let mut covered: Vec<u8> = Vec::new();
        covered.push(tag[0]);
        covered.push(tag[1]);
        covered.push(tag[2]);
        covered.push(tag[3]);
        covered.extend_from_slice(data.as_slice());
        assert(covered@ =~= chunk_type@ + data@);
        let crc = checksum(covered.as_slice());
        Chunk { length: data.len() as u32, chunk_type, data, crc }
    }

    /// Number of data bytes.
    pub fn length(&self) -> (r: u32)
        ensures
            r == self@.length,
    {
        self.length
    }

    /// The stored checksum.
    pub fn crc(&self) -> (r: u32)
        ensures
            r == self@.crc,
    {
        self.crc
    }

    /// The chunk's type.
    pub fn chunk_type(&self) -> (r: &ChunkType)
        ensures
            r@ == self@.chunk_type,
    {
        &self.chunk_type
    }

    /// The chunk's data.
    pub fn data(&self) -> (r: &[u8])
        ensures
            r@ == self@.data,
    {
        self.data.as_slice()
    }

    /// The data as text; fails with `NotText` where it is not UTF-8.
    pub fn data_as_string(&self) -> (r: Result<String, Error>)
        ensures
            r is Ok <==> valid_utf8(self@.data),
            r matches Ok(s) ==> s@ == decode_utf8(self@.data),
            r matches Err(e) ==> e == Error::NotText,
    {
        match utf8_string(slice_to_vec(self.data.as_slice())) {
            Some(s) => Ok(s),
            None => Err(Error::NotText),
        }
    }

    /// The wire form of the chunk.
    pub fn as_bytes(&self) -> (r: Vec<u8>)
        ensures
            r@ == chunk_bytes(self@),
    {
        let mut out: Vec<u8> = Vec::new();
        push_be(&mut out, self.length);
        let tag = self.chunk_type.bytes();
        out.push(tag[0]);
        out.push(tag[1]);
        out.push(tag[2]);
        out.push(tag[3]);
        out.extend_from_slice(self.data.as_slice());
        push_be(&mut out, self.crc);
        assert(out@ =~= chunk_bytes(self@));
        out
    }

    /// Appends the bytes of the diagnostic rendering.
    pub fn push_display_bytes(&self, out: &mut Vec<u8>)
        ensures
            final(out)@ == old(out)@ + display_bytes(self@),
    {
        let len = be_array(self.length);
        push_hex(out, len.as_slice());
        let tag = self.chunk_type.bytes();
        out.extend_from_slice(tag.as_slice());
        push_hex(out, self.data.as_slice());
        let crc = be_array(self.crc);
        push_hex(out, crc.as_slice());
        assert(final(out)@ =~= old(out)@ + display_bytes(self@));
    }

    /// Diagnostic rendering: length, data and checksum in upper-case
    /// hexadecimal around the type's text. Bytes that are not UTF-8 render
    /// as U+FFFD.
    pub fn to_string(&self) -> (r: String)
        ensures
            r@ == lossy_text(display_bytes(self@)),
            valid_utf8(display_bytes(self@)) ==> r@ == decode_utf8(display_bytes(self@)),
            is_tag_text(self@.chunk_type) ==> r@ == ascii_text(display_bytes(self@)),
    {
        proof {
            if is_tag_text(self@.chunk_type) {
                lemma_display_ascii(self@);
                lemma_ascii_text(display_bytes(self@));
            }
        }
        let mut out: Vec<u8> = Vec::new();
        self.push_display_bytes(&mut out);
        assert(out@ =~= display_bytes(self@));
        lossy_string(out.as_slice())
    }

    /// Reads one chunk from the start of `bytes`. Fails with `Truncated`
    /// where the bytes end before the chunk does, and with
    /// `ChecksumMismatch` where the stored checksum is not the one computed
    /// over the type and data.
    pub fn decode(bytes: &[u8]) -> (r: Result<Chunk, Error>)
        ensures
            match r {
                Ok(c) => decode_result(bytes@) == Ok::<ChunkModel, Error>(c@),
                Err(e) => decode_result(bytes@) == Err::<ChunkModel, Error>(e),
            },
    {
        reveal(decode_result);
        let len = bytes.len();
        if len < 12 {
            return Err(Error::Truncated);
        }
        let n = read_be(bytes, 0);
        let n_us = n as usize;
        if n_us > len - 12 {
            return Err(Error::Truncated);
        }
        let stored = read_be(bytes, 8 + n_us);
        let computed = checksum(slice_subrange(bytes, 4, 8 + n_us));
        if stored != computed {
            return Err(Error::ChecksumMismatch { stored, computed });
        }
        let chunk_type = ChunkType::from_bytes([bytes[4], bytes[5], bytes[6], bytes[7]]);
        let data = slice_to_vec(slice_subrange(bytes, 8, 8 + n_us));
        assert(chunk_type@ =~= bytes@.subrange(4, 8));
        assert(chunk_type@ + data@ =~= bytes@.subrange(4, 8 + n_us as int));
        Ok(Chunk { length: n, chunk_type, data, crc: stored })
    }
}

impl<'a> TryFrom<&'a [u8]> for Chunk {
    type Error = Error;

    /// Reads one chunk from the start of `bytes`, as `Chunk::decode` does.
    fn try_from(bytes: &'a [u8]) -> (r: Result<Chunk, Error>)
        ensures
            match r {
                Ok(c) => decode_result(bytes@) == Ok::<ChunkModel, Error>(c@),
                Err(e) => decode_result(bytes@) == Err::<ChunkModel, Error>(e),
            },
    {
        Chunk::decode(bytes)
    }
}

/// A chunk cannot be built in spec code, so the conversion is described by
/// the `ensures` of `try_from` over views, not by a spec value.
impl<'a> vstd::std_specs::convert::TryFromSpecImpl<&'a [u8]> for Chunk {
    open spec fn obeys_try_from_spec() -> bool {
        false
    }

    open spec fn try_from_spec(bytes: &'a [u8]) -> Result<Chunk, Error> {
        arbitrary()
    }
}

/// Appends the big-endian bytes of `x`.
fn push_be(out: &mut Vec<u8>, x: u32)
    ensures
        final(out)@ == old(out)@ + be_bytes(x),
{
    out.push((x >> 24) as u8);
    out.push((x >> 16) as u8);
    out.push((x >> 8) as u8);
    out.push(x as u8);
    assert(final(out)@ =~= old(out)@ + be_bytes(x));
}

/// The big-endian bytes of `x`.
fn be_array(x: u32) -> (r: [u8; 4])
    ensures
        r@ == be_bytes(x),
{
    let r: [u8; 4] = [(x >> 24) as u8, (x >> 16) as u8, (x >> 8) as u8, x as u8];
    assert(r@ =~= be_bytes(x));
    r
}

/// The number stored big-endian at `at`.
fn read_be(bytes: &[u8], at: usize) -> (r: u32)
    requires
        at + 4 <= bytes@.len(),
    ensures
        r == be_value(bytes@.subrange(at as int, at + 4)),
{
    ((bytes[at] as u32) << 24) | ((bytes[at + 1] as u32) << 16) | ((bytes[at + 2] as u32) << 8)
        | (bytes[at + 3] as u32)
}

} // verus!
