//! The container: the PNG signature followed by chunks in stream order.

use crate::chunk::{
    chunk_bytes, decode_result, display_bytes, lemma_decode_chunk_bytes, well_formed, Chunk,
    ChunkModel,
};
use crate::chunk::lemma_display_ascii;
use crate::chunk_type::is_tag_text;
use crate::text::{ascii_text, is_ascii_bytes, lemma_ascii_text, lossy_string, lossy_text};
use vstd::utf8::{decode_utf8, valid_utf8};
use crate::error::Error;
use vstd::prelude::*;
use vstd::slice::slice_subrange;
use vstd::string::StringSliceAdditionalSpecFns;

verus! {

/// The eight bytes that open every PNG stream.
pub open spec fn signature() -> Seq<u8> {
    seq![137u8, 80u8, 78u8, 71u8, 13u8, 10u8, 26u8, 10u8]
}

/// The wire forms of the chunks, one after another.
pub open spec fn chunks_bytes(cs: Seq<ChunkModel>) -> Seq<u8>
    decreases cs.len(),
{
    if cs.len() == 0 {
        Seq::empty()
    } else {
        chunks_bytes(cs.drop_last()) + chunk_bytes(cs.last())
    }
}

/// The wire form of a container holding these chunks.
pub open spec fn png_bytes(cs: Seq<ChunkModel>) -> Seq<u8> {
    signature() + chunks_bytes(cs)
}

/// `r` with the chunks `p` put before what it holds, errors unchanged.
pub open spec fn prepend(p: Seq<ChunkModel>, r: Result<Seq<ChunkModel>, Error>) -> Result<
    Seq<ChunkModel>,
    Error,
> {
    match r {
        Ok(rest) => Ok(p + rest),
        Err(e) => Err(e),
    }
}

/// What reading chunks until `s` is used up gives: the first failure, or
/// every chunk in order.
pub open spec fn parse_chunks(s: Seq<u8>) -> Result<Seq<ChunkModel>, Error>
    decreases s.len(),
{
    if s.len() == 0 {
        Ok(Seq::empty())
    } else if s.len() < 12 || s.len() - 12 < be_len(s) {
        Err(Error::Truncated)
    } else {
        match decode_result(s) {
            Err(e) => Err(e),
            Ok(m) => prepend(seq![m], parse_chunks(s.subrange(12 + be_len(s), s.len() as int))),
        }
    }
}

/// The length field at the start of `s`.
pub open spec fn be_len(s: Seq<u8>) -> int {
    crate::chunk::be_value(s) as int
}

/// What reading a whole container from `b` gives.
pub open spec fn png_decode_result(b: Seq<u8>) -> Result<Seq<ChunkModel>, Error> {
    if b.len() < 8 || b.subrange(0, 8) != signature() {
        Err(Error::BadSignature)
    } else {
        parse_chunks(b.subrange(8, b.len() as int))
    }
}

/// The chunk has the type whose bytes are `name`.
pub open spec fn has_type(m: ChunkModel, name: Seq<u8>) -> bool {
    m.chunk_type == name
}

/// Index `i` holds the first chunk of type `name`.
pub open spec fn is_first_of_type(cs: Seq<ChunkModel>, name: Seq<u8>, i: int) -> bool {
    &&& 0 <= i < cs.len()
    &&& has_type(cs[i], name)
    &&& forall|j: int| 0 <= j < i ==> !has_type(#[trigger] cs[j], name)
}

/// Some chunk has type `name`.
pub open spec fn holds_type(cs: Seq<ChunkModel>, name: Seq<u8>) -> bool {
    exists|i: int| 0 <= i < cs.len() && has_type(#[trigger] cs[i], name)
}

proof fn lemma_chunks_bytes_prepend(m: ChunkModel, cs: Seq<ChunkModel>)
    ensures
        chunks_bytes(seq![m] + cs) == chunk_bytes(m) + chunks_bytes(cs),
    decreases cs.len(),
{
    if cs.len() == 0 {
        assert(seq![m] + cs =~= seq![m]);
        assert(seq![m].drop_last() =~= Seq::<ChunkModel>::empty());
        assert(chunks_bytes(Seq::<ChunkModel>::empty()) == Seq::<u8>::empty());
        assert(chunks_bytes(seq![m]) == chunks_bytes(seq![m].drop_last()) + chunk_bytes(m));
        assert(chunks_bytes(seq![m]) =~= chunk_bytes(m));
    } else {
        lemma_chunks_bytes_prepend(m, cs.drop_last());
        assert((seq![m] + cs).drop_last() =~= seq![m] + cs.drop_last());
        assert((seq![m] + cs).last() == cs.last());
        assert(chunks_bytes(seq![m] + cs) =~= chunk_bytes(m) + chunks_bytes(cs));
    }
}

proof fn lemma_parse_step(m: ChunkModel, rest: Seq<u8>)
    requires
        well_formed(m),
    ensures
        parse_chunks(chunk_bytes(m) + rest) == prepend(seq![m], parse_chunks(rest)),
{
    let s = chunk_bytes(m) + rest;
    lemma_decode_chunk_bytes(m, rest);
    crate::chunk::lemma_be_round_trip(m.length);
    assert(chunk_bytes(m).len() == 12 + m.length);
    assert(s.subrange(0, 4) =~= crate::chunk::be_bytes(m.length));
    assert(crate::chunk::be_value(s) == crate::chunk::be_value(s.subrange(0, 4)));
    assert(be_len(s) == m.length);
    assert(s.subrange(12 + be_len(s), s.len() as int) =~= rest);
}

proof fn lemma_parse_chunks_bytes(cs: Seq<ChunkModel>)
    requires
        forall|i: int| 0 <= i < cs.len() ==> well_formed(#[trigger] cs[i]),
    ensures
        parse_chunks(chunks_bytes(cs)) == Ok::<Seq<ChunkModel>, Error>(cs),
    decreases cs.len(),
{
    if cs.len() == 0 {
        assert(cs =~= Seq::<ChunkModel>::empty());
    } else {
        let m = cs[0];
        let tail = cs.drop_first();
        assert(cs =~= seq![m] + tail);
        lemma_chunks_bytes_prepend(m, tail);
        assert forall|i: int| 0 <= i < tail.len() implies well_formed(#[trigger] tail[i]) by {
            assert(tail[i] == cs[i + 1]);
        }
        lemma_parse_chunks_bytes(tail);
        assert(well_formed(cs[0]));
        lemma_parse_step(m, chunks_bytes(tail));
    }
}

/// Reading back the wire form of a container built from well-formed chunks
/// gives the same chunks in the same order.
pub proof fn lemma_png_round_trip(cs: Seq<ChunkModel>)
    requires
        forall|i: int| 0 <= i < cs.len() ==> well_formed(#[trigger] cs[i]),
    ensures
        png_decode_result(png_bytes(cs)) == Ok::<Seq<ChunkModel>, Error>(cs),
{
    let b = png_bytes(cs);
    assert(b.subrange(0, 8) =~= signature());
    assert(b.subrange(8, b.len() as int) =~= chunks_bytes(cs));
    lemma_parse_chunks_bytes(cs);
}

/// A buffer that does not open with the signature is refused with
/// `BadSignature`, whatever follows.
pub proof fn lemma_bad_signature(b: Seq<u8>)
    requires
        b.len() < 8 || b.subrange(0, 8) != signature(),
    ensures
        png_decode_result(b) == Err::<Seq<ChunkModel>, Error>(Error::BadSignature),
{
}

/// The bytes of a container's diagnostic rendering: each chunk's rendering
/// on a line of its own; the signature is left out.
pub open spec fn png_display_bytes(cs: Seq<ChunkModel>) -> Seq<u8>
    decreases cs.len(),
{
    if cs.len() == 0 {
        Seq::empty()
    } else {
        png_display_bytes(cs.drop_last()) + display_bytes(cs.last()) + seq![10u8]
    }
}

/// The rendering of a container whose chunk types are all made of letters
/// is ASCII.
pub proof fn lemma_png_display_ascii(cs: Seq<ChunkModel>)
    requires
        forall|i: int| 0 <= i < cs.len() ==> is_tag_text(#[trigger] cs[i].chunk_type),
    ensures
        is_ascii_bytes(png_display_bytes(cs)),
    decreases cs.len(),
{
    if cs.len() > 0 {
        let init = cs.drop_last();
        assert forall|i: int| 0 <= i < init.len() implies is_tag_text(#[trigger] init[i].chunk_type) by {
            assert(init[i] == cs[i]);
        }
        lemma_png_display_ascii(init);
        assert(is_tag_text(cs[cs.len() - 1].chunk_type));
        lemma_display_ascii(cs.last());
        let a = png_display_bytes(init);
        let b = display_bytes(cs.last());
        let d = png_display_bytes(cs);
        assert(d == a + b + seq![10u8]);
        assert forall|i: int| 0 <= i < d.len() implies #[trigger] d[i] < 128 by {
            if i < a.len() {
                assert(d[i] == a[i]);
            } else if i < a.len() + b.len() {
                assert(d[i] == b[i - a.len()]);
            } else {
                assert(d[i] == 10u8);
            }
        }
    }
}

/// The views of chunks.
pub open spec fn models(cs: Seq<Chunk>) -> Seq<ChunkModel> {
    cs.map_values(|c: Chunk| c@)
}

/// A PNG stream as its chunks; the signature is implied.
pub struct Png {
    chunks: Vec<Chunk>,
}

impl View for Png {
    type V = Seq<ChunkModel>;

    closed spec fn view(&self) -> Seq<ChunkModel> {
        models(self.chunks@)
    }
}

impl Png {
    /// The signature every container starts with.
    pub fn standard_header() -> (r: [u8; 8])
        ensures
            r@ == signature(),
    {
        let r: [u8; 8] = [137, 80, 78, 71, 13, 10, 26, 10];
        assert(r@ =~= signature());
        r
    }

    /// The container holding these chunks, in this order.
    pub fn from_chunks(chunks: Vec<Chunk>) -> (r: Png)
        ensures
            r@ == models(chunks@),
    {
        Png { chunks }
    }

    /// Adds `chunk` after the last chunk.
    pub fn append_chunk(&mut self, chunk: Chunk)
        ensures
            final(self)@ == old(self)@.push(chunk@),
    {
        self.chunks.push(chunk);
        assert(models(self.chunks@) =~= old(self)@.push(chunk@));
    }

    /// Removes and returns the first chunk of type `chunk_type`; fails with
    /// `NotFound`, leaving the chunks as they were, where there is none.
    pub fn remove_first_chunk(&mut self, chunk_type: &str) -> (r: Result<Chunk, Error>)
        ensures
            r is Ok <==> holds_type(old(self)@, chunk_type.spec_bytes()),
            r matches Ok(c) ==> exists|i: int|
                is_first_of_type(old(self)@, chunk_type.spec_bytes(), i) && c@ == old(self)@[i]
                    && final(self)@ == old(self)@.remove(i),
            r matches Err(e) ==> e == Error::NotFound && final(self)@ == old(self)@,
    {
        let mut i: usize = 0;
        while i < self.chunks.len()
            invariant
                i <= self@.len(),
                self@ == old(self)@,
                forall|j: int| 0 <= j < i ==> !has_type(#[trigger] self@[j], chunk_type.spec_bytes()),
            decreases self@.len() - i,
        {
            if self.chunks[i].chunk_type().is_named(chunk_type) {
                let c = self.chunks.remove(i);
                assert(models(self.chunks@) =~= old(self)@.remove(i as int));
                assert(is_first_of_type(old(self)@, chunk_type.spec_bytes(), i as int));
                return Ok(c);
            }
            i = i + 1;
        }
        Err(Error::NotFound)
    }

    /// The signature.
    pub fn header(&self) -> (r: [u8; 8])
        ensures
            r@ == signature(),
    {
        Png::standard_header()
    }

    /// The chunks, in order.
    pub fn chunks(&self) -> (r: &[Chunk])
        ensures
            models(r@) == self@,
    {
        self.chunks.as_slice()
    }

    /// The first chunk of type `chunk_type`, if any.
    pub fn chunk_by_type(&self, chunk_type: &str) -> (r: Option<&Chunk>)
        ensures
            r is Some <==> holds_type(self@, chunk_type.spec_bytes()),
            r matches Some(c) ==> exists|i: int|
                is_first_of_type(self@, chunk_type.spec_bytes(), i) && c@ == self@[i],
    {
        let mut i: usize = 0;
        while i < self.chunks.len()
            invariant
                i <= self@.len(),
                forall|j: int| 0 <= j < i ==> !has_type(#[trigger] self@[j], chunk_type.spec_bytes()),
            decreases self@.len() - i,
        {
            if self.chunks[i].chunk_type().is_named(chunk_type) {
                assert(is_first_of_type(self@, chunk_type.spec_bytes(), i as int));
                return Some(&self.chunks[i]);
            }
            i = i + 1;
        }
        None
    }

    /// Every chunk of type `chunk_type`, in order.
    pub fn chunks_by_type(&self, chunk_type: &str) -> (r: Vec<&Chunk>)
        ensures
            r@.map_values(|c: &Chunk| c@) == self@.filter(
                |m: ChunkModel| has_type(m, chunk_type.spec_bytes()),
            ),
    {
        let ghost name = chunk_type.spec_bytes();
        let ghost pred = |m: ChunkModel| has_type(m, name);
        let mut out: Vec<&Chunk> = Vec::new();
        let mut i: usize = 0;
        while i < self.chunks.len()
            invariant
                i <= self@.len(),
                name == chunk_type.spec_bytes(),
                pred == (|m: ChunkModel| has_type(m, name)),
                out@.map_values(|c: &Chunk| c@) == self@.take(i as int).filter(pred),
            decreases self@.len() - i,
        {
            proof {
                reveal(Seq::filter);
                assert(self@.take(i + 1).drop_last() =~= self@.take(i as int));
                assert(self@.take(i + 1).last() == self@[i as int]);
            }
            let c = &self.chunks[i];
            if c.chunk_type().is_named(chunk_type) {
                out.push(c);
                assert(out@.map_values(|c: &Chunk| c@) =~= self@.take(i + 1).filter(pred));
            } else {
                assert(out@.map_values(|c: &Chunk| c@) =~= self@.take(i + 1).filter(pred));
            }
            i = i + 1;
        }
        assert(self@.take(i as int) =~= self@);
        out
    }

    /// The wire form: the signature, then each chunk's wire form in order.
    pub fn as_bytes(&self) -> (r: Vec<u8>)
        ensures
            r@ == png_bytes(self@),
    {
        let header = Png::standard_header();
        let mut out: Vec<u8> = Vec::new();
        out.extend_from_slice(header.as_slice());
        let mut i: usize = 0;
        while i < self.chunks.len()
            invariant
                i <= self@.len(),
                out@ == signature() + chunks_bytes(self@.take(i as int)),
            decreases self@.len() - i,
        {
            let bytes = self.chunks[i].as_bytes();
            out.extend_from_slice(bytes.as_slice());
            proof {
                assert(self@.take(i + 1).drop_last() =~= self@.take(i as int));
                assert(self@.take(i + 1).last() == self@[i as int]);
                assert(out@ =~= signature() + chunks_bytes(self@.take(i + 1)));
            }
            i = i + 1;
        }
        assert(self@.take(i as int) =~= self@);
        out
    }

    /// Diagnostic rendering: each chunk's rendering on a line of its own.
    pub fn to_string(&self) -> (r: String)
        ensures
            r@ == lossy_text(png_display_bytes(self@)),
            valid_utf8(png_display_bytes(self@)) ==> r@ == decode_utf8(png_display_bytes(self@)),
            (forall|i: int| 0 <= i < self@.len() ==> is_tag_text(#[trigger] self@[i].chunk_type))
                ==> r@ == ascii_text(png_display_bytes(self@)),
    {
        proof {
            if forall|i: int| 0 <= i < self@.len() ==> is_tag_text(#[trigger] self@[i].chunk_type) {
                lemma_png_display_ascii(self@);
                lemma_ascii_text(png_display_bytes(self@));
            }
        }
        let mut out: Vec<u8> = Vec::new();
        let mut i: usize = 0;
        while i < self.chunks.len()
            invariant
                i <= self@.len(),
                out@ == png_display_bytes(self@.take(i as int)),
            decreases self@.len() - i,
        {
            self.chunks[i].push_display_bytes(&mut out);
            out.push(10u8);
            proof {
                assert(self@.take(i + 1).drop_last() =~= self@.take(i as int));
                assert(self@.take(i + 1).last() == self@[i as int]);
                assert(out@ =~= png_display_bytes(self@.take(i + 1)));
            }
            i = i + 1;
        }
        assert(self@.take(i as int) =~= self@);
        lossy_string(out.as_slice())
    }

    /// Reads a whole container. Fails with `BadSignature` where `bytes` does
    /// not open with the signature, and with the first chunk's failure where
    /// the rest is not a run of whole, intact chunks.
    pub fn decode(bytes: &[u8]) -> (r: Result<Png, Error>)
        ensures
            match r {
                Ok(p) => png_decode_result(bytes@) == Ok::<Seq<ChunkModel>, Error>(p@),
                Err(e) => png_decode_result(bytes@) == Err::<Seq<ChunkModel>, Error>(e),
            },
    {
        let len = bytes.len();
        if len < 8 {
            return Err(Error::BadSignature);
        }
        let header = Png::standard_header();
        let mut k: usize = 0;
        while k < 8
            invariant
                k <= 8,
                len == bytes@.len(),
                len >= 8,
                header@ == signature(),
                forall|j: int| 0 <= j < k ==> bytes@[j] == signature()[j],
            decreases 8 - k,
        {
            if bytes[k] != header[k] {
                assert(bytes@.subrange(0, 8)[k as int] != signature()[k as int]);
                return Err(Error::BadSignature);
            }
            k = k + 1;
        }
        assert(bytes@.subrange(0, 8) =~= signature());
        let ghost all = bytes@.subrange(8, len as int);
        let mut chunks: Vec<Chunk> = Vec::new();
        let mut off: usize = 8;
        while off < len
            invariant
                8 <= off <= len,
                len == bytes@.len(),
                all == bytes@.subrange(8, len as int),
                png_decode_result(bytes@) == parse_chunks(all),
                parse_chunks(all) == prepend(
                    models(chunks@),
                    parse_chunks(bytes@.subrange(off as int, len as int)),
                ),
            decreases len - off,
        {
            let rest = slice_subrange(bytes, off, len);
            match Chunk::decode(rest) {
                Err(e) => {
                    proof {
                        reveal(decode_result);
                        assert(rest@.len() > 0);
                        assert(parse_chunks(rest@) == Err::<Seq<ChunkModel>, Error>(e));
                    }
                    return Err(e);
                },
                Ok(c) => {
                    proof {
                        reveal(decode_result);
                        let ghost r = rest@;
                        assert(r.len() > 0);
                        assert(decode_result(r) == Ok::<ChunkModel, Error>(c@));
                        assert(c@.length == be_len(r));
                        assert(12 + be_len(r) <= r.len());
                        let ghost next = r.subrange(12 + be_len(r), r.len() as int);
                        assert(parse_chunks(r) == prepend(seq![c@], parse_chunks(next)));
                        assert(next =~= bytes@.subrange(off + 12 + c@.length, len as int));
                        assert(models(chunks@.push(c)) =~= models(chunks@) + seq![c@]);
                        match parse_chunks(next) {
                            Ok(tl) => {
                                assert(models(chunks@) + (seq![c@] + tl) =~= (models(chunks@)
                                    + seq![c@]) + tl);
                            },
                            Err(_) => {},
                        }
                    }
                    off = off + 12 + c.length() as usize;
                    chunks.push(c);
                },
            }
        }
        assert(models(chunks@) + Seq::<ChunkModel>::empty() =~= models(chunks@));
        Ok(Png { chunks })
    }
}

impl<'a> TryFrom<&'a [u8]> for Png {
    type Error = Error;

    /// Reads a whole container, as `Png::decode` does.
    fn try_from(bytes: &'a [u8]) -> (r: Result<Png, Error>)
        ensures
            match r {
                Ok(p) => png_decode_result(bytes@) == Ok::<Seq<ChunkModel>, Error>(p@),
                Err(e) => png_decode_result(bytes@) == Err::<Seq<ChunkModel>, Error>(e),
            },
    {
        Png::decode(bytes)
    }
}

/// A container cannot be built in spec code, so the conversion is
/// described by the `ensures` of `try_from` over views, not by a spec value.
impl<'a> vstd::std_specs::convert::TryFromSpecImpl<&'a [u8]> for Png {
    open spec fn obeys_try_from_spec() -> bool {
        false
    }

    open spec fn try_from_spec(bytes: &'a [u8]) -> Result<Png, Error> {
        arbitrary()
    }
}

} // verus!
