use vstd::prelude::*;
use vstd::slice::slice_subrange;
use crate::bytes::{be_value, push_all, u32_from_be};
use crate::chunk::{well_formed, chunk_bytes, lemma_chunk_bytes_len, lemma_chunk_round_trip, parse_chunk, Chunk, ChunkModel};
use crate::chunk_type::tag_chars;
use crate::error::Error;

verus! {

/// The eight bytes that open every PNG file.
pub open spec fn signature() -> Seq<u8> {
    seq![137u8, 80u8, 78u8, 71u8, 13u8, 10u8, 26u8, 10u8]
}

/// The bytes of a sequence of chunks, one after the other.
pub open spec fn chunks_bytes(cs: Seq<ChunkModel>) -> Seq<u8>
    decreases cs.len(),
{
    if cs.len() == 0 {
        Seq::empty()
    } else {
        chunk_bytes(cs[0].tag, cs[0].data) + chunks_bytes(cs.drop_first())
    }
}

/// The bytes of a PNG file made of the chunks `cs`.
pub open spec fn png_bytes(cs: Seq<ChunkModel>) -> Seq<u8> {
    signature() + chunks_bytes(cs)
}

/// Where the first chunk of `b` ends, by its declared length; a chunk that
/// claims more bytes than there are takes all of them (and then fails to parse).
pub open spec fn chunk_end(b: Seq<u8>) -> int {
    if b.len() < 12 {
        b.len() as int
    } else if 12 + be_value(b.subrange(0, 4)) <= b.len() {
        12 + be_value(b.subrange(0, 4))
    } else {
        b.len() as int
    }
}

/// `r` with `prefix` put in front of the chunks it holds.
pub open spec fn prepend(prefix: Seq<ChunkModel>, r: Result<Seq<ChunkModel>, Error>) -> Result<Seq<ChunkModel>, Error> {
    match r {
        Ok(s) => Ok(prefix + s),
        Err(e) => Err(e),
    }
}

/// What reading the chunks that follow the signature gives: all of them, or the
/// error of the first that fails.
pub open spec fn parse_chunks(b: Seq<u8>) -> Result<Seq<ChunkModel>, Error>
    decreases b.len(),
{
    if b.len() == 0 {
        Ok(Seq::empty())
    } else {
        match parse_chunk(b.subrange(0, chunk_end(b))) {
            Err(e) => Err(e),
            Ok(c) => prepend(seq![c], parse_chunks(b.subrange(chunk_end(b), b.len() as int))),
        }
    }
}

/// What reading a whole PNG file gives.
pub open spec fn parse_png(b: Seq<u8>) -> Result<Seq<ChunkModel>, Error> {
    if b.len() < 8 || b.subrange(0, 8) != signature() {
        Err(Error::BadSignature)
    } else {
        parse_chunks(b.subrange(8, b.len() as int))
    }
}

/// The chunk's type tag reads as `name`.
pub open spec fn has_type_name(c: ChunkModel, name: Seq<char>) -> bool {
    tag_chars(c.tag) == name
}

/// `i` is the position of the first chunk of `cs` whose type reads as `name`.
pub open spec fn is_first_match(cs: Seq<ChunkModel>, name: Seq<char>, i: int) -> bool {
    &&& 0 <= i < cs.len()
    &&& has_type_name(cs[i], name)
    &&& forall|j: int| 0 <= j < i ==> !has_type_name(#[trigger] cs[j], name)
}

/// No chunk of `cs` has a type that reads as `name`.
pub open spec fn no_match(cs: Seq<ChunkModel>, name: Seq<char>) -> bool {
    forall|j: int| 0 <= j < cs.len() ==> !has_type_name(#[trigger] cs[j], name)
}

/// The models of a run of chunks.
pub open spec fn models(cs: Seq<Chunk>) -> Seq<ChunkModel> {
    cs.map_values(|c: Chunk| c@)
}

/// The bytes of `a` followed by one more chunk.
pub proof fn lemma_chunks_bytes_push(a: Seq<ChunkModel>, x: ChunkModel)
    ensures
        chunks_bytes(a.push(x)) == chunks_bytes(a) + chunk_bytes(x.tag, x.data),
    decreases a.len(),
{
    if a.len() == 0 {
        assert(a.push(x).drop_first() =~= Seq::<ChunkModel>::empty());
        assert(a.push(x)[0] == x);
        assert(chunks_bytes(Seq::<ChunkModel>::empty()) == Seq::<u8>::empty());
        assert(chunks_bytes(a) == Seq::<u8>::empty());
        assert(chunks_bytes(a.push(x)) =~= chunks_bytes(a) + chunk_bytes(x.tag, x.data));
    } else {
        assert(a.push(x).drop_first() =~= a.drop_first().push(x));
        lemma_chunks_bytes_push(a.drop_first(), x);
        assert(chunks_bytes(a.push(x)) =~= chunks_bytes(a) + chunk_bytes(x.tag, x.data));
    }
}

/// A chunk that parses and whose declared length spans it, followed by more bytes.
proof fn lemma_parse_chunks_step(first: Seq<u8>, rest: Seq<u8>, c: ChunkModel)
    requires
        first.len() >= 12,
        12 + be_value(first.subrange(0, 4)) == first.len(),
        parse_chunk(first) == Ok::<ChunkModel, Error>(c),
    ensures
        parse_chunks(first + rest) == prepend(seq![c], parse_chunks(rest)),
{
    let b = first + rest;
    assert(b.subrange(0, 4) =~= first.subrange(0, 4));
    assert(chunk_end(b) == first.len());
    assert(b.subrange(0, chunk_end(b)) =~= first);
    assert(b.subrange(chunk_end(b), b.len() as int) =~= rest);
}

/// Reading back the bytes of a run of well-formed chunks gives the same run.
proof fn lemma_chunks_round_trip(cs: Seq<ChunkModel>)
    requires
        forall|i: int| 0 <= i < cs.len() ==> well_formed(#[trigger] cs[i]),
    ensures
        parse_chunks(chunks_bytes(cs)) == Ok::<Seq<ChunkModel>, Error>(cs),
    decreases cs.len(),
{
    if cs.len() > 0 {
        let c = cs[0];
        assert(well_formed(cs[0]));
        let tail = cs.drop_first();
        assert forall|i: int| 0 <= i < tail.len() implies well_formed(#[trigger] tail[i]) by {
            assert(tail[i] == cs[i + 1]);
        }
        lemma_chunks_round_trip(tail);
        lemma_chunk_round_trip(c.tag, c.data);
        lemma_chunk_bytes_len(c.tag, c.data);
        assert(c == (ChunkModel { tag: c.tag, data: c.data }));
        lemma_parse_chunks_step(chunk_bytes(c.tag, c.data), chunks_bytes(tail), c);
        assert(seq![c] + tail =~= cs);
    } else {
        assert(chunks_bytes(cs) =~= Seq::<u8>::empty());
        assert(cs =~= Seq::<ChunkModel>::empty());
    }
}

/// Serialising a PNG file's chunks and reading the bytes back gives the same
/// chunks, in the same order.
pub proof fn lemma_png_round_trip(cs: Seq<ChunkModel>)
    requires
        forall|i: int| 0 <= i < cs.len() ==> well_formed(#[trigger] cs[i]),
    ensures
        parse_png(png_bytes(cs)) == Ok::<Seq<ChunkModel>, Error>(cs),
{
    let b = png_bytes(cs);
    assert(b.subrange(0, 8) =~= signature());
    assert(b.subrange(8, b.len() as int) =~= chunks_bytes(cs));
    lemma_chunks_round_trip(cs);
}

/// A file of no chunks is the eight signature bytes, and reads back as no chunks.
pub proof fn lemma_empty_png()
    ensures
        png_bytes(Seq::empty()) == signature(),
        png_bytes(Seq::empty()).len() == 8,
        parse_png(signature()) == Ok::<Seq<ChunkModel>, Error>(Seq::empty()),
{
    assert(png_bytes(Seq::empty()) =~= signature());
    lemma_png_round_trip(Seq::empty());
}

/// After a chunk is appended to chunks none of which has its type, a lookup by
/// that type finds the appended chunk and no other.
pub proof fn lemma_find_after_append(cs: Seq<ChunkModel>, c: ChunkModel, name: Seq<char>)
    requires
        no_match(cs, name),
        has_type_name(c, name),
    ensures
        is_first_match(cs.push(c), name, cs.len() as int),
        cs.push(c)[cs.len() as int] == c,
        forall|i: int| is_first_match(cs.push(c), name, i) ==> i == cs.len(),
{
    assert forall|j: int| 0 <= j < cs.len() implies !has_type_name(#[trigger] cs.push(c)[j], name) by {
        assert(cs.push(c)[j] == cs[j]);
    }
}

/// Removing the first chunk of a type leaves one chunk fewer, and the others
/// in the order they had.
pub proof fn lemma_remove_keeps_order(cs: Seq<ChunkModel>, name: Seq<char>, i: int)
    requires
        is_first_match(cs, name, i),
    ensures
        cs.remove(i).len() == cs.len() - 1,
        forall|j: int| 0 <= j < i ==> #[trigger] cs.remove(i)[j] == cs[j],
        forall|j: int| i < j < cs.len() ==> cs.remove(i)[j - 1] == #[trigger] cs[j],
{
}

/// A PNG file: the signature followed by an ordered run of chunks.
#[derive(Debug)]
pub struct Png {
    chunks: Vec<Chunk>,
}

impl View for Png {
    type V = Seq<ChunkModel>;

    closed spec fn view(&self) -> Seq<ChunkModel> {
        models(self.chunks@)
    }
}

impl Png {
    /// The eight signature bytes.
    pub fn standard_header() -> (r: [u8; 8])
        ensures
            r@ == signature(),
    {
        let r: [u8; 8] = [137u8, 80u8, 78u8, 71u8, 13u8, 10u8, 26u8, 10u8];
        assert(r@ =~= signature());
        r
    }

    /// A file made of the given chunks, in order.
    pub fn from_chunks(chunks: Vec<Chunk>) -> (r: Png)
        ensures
            r@ == models(chunks@),
    {
        Png { chunks }
    }

    /// Adds a chunk at the end.
    pub fn append_chunk(&mut self, chunk: Chunk)
        ensures
            final(self)@ == old(self)@.push(chunk@),
    {
        self.chunks.push(chunk);
        assert(models(self.chunks@) =~= models(old(self).chunks@).push(chunk@));
    }

    /// Position of the first chunk whose type reads as `name`, if any.
    fn position_of(&self, name: &str) -> (r: Option<usize>)
        ensures
            match r {
                Some(i) => is_first_match(self@, name@, i as int),
                None => no_match(self@, name@),
            },
    {
        let mut i: usize = 0;
        while i < self.chunks.len()
            invariant
                i <= self.chunks@.len(),
                forall|j: int| 0 <= j < i ==> !has_type_name(#[trigger] self@[j], name@),
            decreases self.chunks@.len() - i,
        {
            if self.chunks[i].chunk_type().has_name(name) {
                return Some(i);
            }
            i = i + 1;
        }
        None
    }

    /// The first chunk whose type reads as `chunk_type`, if any.
    pub fn chunk_by_type(&self, chunk_type: &str) -> (r: Option<&Chunk>)
        ensures
            match r {
                Some(c) => exists|i: int| is_first_match(self@, chunk_type@, i) && c@ == self@[i],
                None => no_match(self@, chunk_type@),
            },
    {
        match self.position_of(chunk_type) {
            Some(i) => Some(&self.chunks[i]),
            None => None,
        }
    }

    /// Removes and returns the first chunk whose type reads as `chunk_type`;
    /// the others keep their order.
    pub fn remove_chunk(&mut self, chunk_type: &str) -> (r: Result<Chunk, Error>)
        ensures
            match r {
                Ok(c) => exists|i: int|
                    is_first_match(old(self)@, chunk_type@, i) && c@ == old(self)@[i]
                        && final(self)@ == old(self)@.remove(i),
                Err(e) => e == Error::ChunkNotFound && no_match(old(self)@, chunk_type@)
                    && final(self)@ == old(self)@,
            },
    {
        match self.position_of(chunk_type) {
            Some(i) => {
                let c = self.chunks.remove(i);
                assert(models(self.chunks@) =~= models(old(self).chunks@).remove(i as int));
                Ok(c)
            },
            None => Err(Error::ChunkNotFound),
        }
    }

    /// The chunks, in order.
    pub fn chunks(&self) -> (r: &[Chunk])
        ensures
            models(r@) == self@,
    {
        self.chunks.as_slice()
    }

    /// The file's bytes: the signature, then each chunk's bytes in order.
    pub fn as_bytes(&self) -> (r: Vec<u8>)
        ensures
            r@ == png_bytes(self@),
            forall|i: int| 0 <= i < self@.len() ==> well_formed(#[trigger] self@[i]),
    {
        let mut out: Vec<u8> = Vec::new();
        let header = Png::standard_header();
        push_all(&mut out, header.as_slice());
        let mut i: usize = 0;
        while i < self.chunks.len()
            invariant
                i <= self.chunks@.len(),
                out@ == signature() + chunks_bytes(self@.take(i as int)),
                forall|j: int| 0 <= j < i ==> well_formed(#[trigger] self@[j]),
            decreases self.chunks@.len() - i,
        {
            let b = self.chunks[i].as_bytes();
            push_all(&mut out, b.as_slice());
            proof {
                assert(self@.take(i + 1) =~= self@.take(i as int).push(self@[i as int]));
                lemma_chunks_bytes_push(self@.take(i as int), self@[i as int]);
            }
            i = i + 1;
        }
        assert(self@.take(i as int) =~= self@);
        out
    }

    /// Reads a PNG file: the signature, then chunks up to the end of the input.
    pub fn try_from(bytes: &[u8]) -> (r: Result<Png, Error>)
        ensures
            match r {
                Ok(p) => parse_png(bytes@) == Ok::<Seq<ChunkModel>, Error>(p@),
                Err(e) => parse_png(bytes@) == Err::<Seq<ChunkModel>, Error>(e),
            },
    {
        let n = bytes.len();
        if n < 8 {
            return Err(Error::BadSignature);
        }
        let header = Png::standard_header();
        let mut k: usize = 0;
        while k < 8
            invariant
                k <= 8,
                n == bytes@.len(),
                n >= 8,
                header@ == signature(),
                forall|j: int| 0 <= j < k ==> #[trigger] bytes@[j] == signature()[j],
            decreases 8 - k,
        {
            if bytes[k] != header[k] {
                assert(bytes@.subrange(0, 8)[k as int] != signature()[k as int]);
                return Err(Error::BadSignature);
            }
            k = k + 1;
        }
        assert(bytes@.subrange(0, 8) =~= signature());
        let mut chunks: Vec<Chunk> = Vec::new();
        let mut cursor: usize = 8;
        assert(bytes@.subrange(8, n as int) == bytes@.subrange(cursor as int, n as int));
        assert(models(chunks@) =~= Seq::<ChunkModel>::empty());
        while cursor < n
            invariant
                8 <= cursor <= n,
                n == bytes@.len(),
                parse_png(bytes@) == prepend(models(chunks@), parse_chunks(bytes@.subrange(cursor as int, n as int))),
            decreases n - cursor,
        {
            let rest = Ghost(bytes@.subrange(cursor as int, n as int));
            let end: usize = if n - cursor < 12 {
                n
            } else {
                let l = u32_from_be(bytes, cursor);
                assert(rest@.subrange(0, 4) =~= bytes@.subrange(cursor as int, cursor + 4));
                if (l as usize) <= n - cursor - 12 {
                    cursor + 12 + l as usize
                } else {
                    n
                }
            };
            assert(end - cursor == chunk_end(rest@));
            let piece = slice_subrange(bytes, cursor, end);
            assert(piece@ =~= rest@.subrange(0, chunk_end(rest@)));
            assert(bytes@.subrange(end as int, n as int) =~= rest@.subrange(chunk_end(rest@), rest@.len() as int));
            match Chunk::try_from(piece) {
                Err(e) => return Err(e),
                Ok(c) => {
                    let ghost before = models(chunks@);
                    chunks.push(c);
                    assert(models(chunks@) =~= before.push(c@));
                    assert(before + seq![c@] =~= before.push(c@));
                    proof {
                        let tail = parse_chunks(bytes@.subrange(end as int, n as int));
                        match tail {
                            Ok(s) => {
                                assert(before + (seq![c@] + s) =~= before.push(c@) + s);
                            },
                            Err(_) => {},
                        }
                    }
                },
            }
            cursor = end;
        }
        assert(bytes@.subrange(cursor as int, n as int) =~= Seq::<u8>::empty());
        assert(models(chunks@) + Seq::<ChunkModel>::empty() =~= models(chunks@));
        Ok(Png { chunks })
    }
}

} // verus!
