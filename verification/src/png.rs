//! The PNG container: the file signature followed by chunks, one after another.

use crate::chunk::{
    lemma_bytes_of_parse_chunk, lemma_parse_chunk_of_bytes, parse_chunk, Chunk, ChunkError,
    ChunkView,
};
use vstd::prelude::*;
use vstd::slice::slice_subrange;
use vstd::std_specs::convert::TryFromSpecImpl;
use vstd::utf8::{decode_utf8, encode_utf8, valid_utf8};

verus! {

/// Why bytes could not be read as a PNG file, or a chunk not be found in one.
#[derive(Debug, Clone, Copy, PartialEq, Eq, Structural)]
pub enum PngError {
    /// The bytes do not start with the PNG signature.
    InvalidSignature,
    /// A chunk after the signature could not be read.
    Chunk(ChunkError),
    /// No chunk has the type asked for.
    ChunkNotFound,
}

/// The eight bytes every PNG file starts with.
pub open spec fn signature() -> Seq<u8> {
    seq![137u8, 80u8, 78u8, 71u8, 13u8, 10u8, 26u8, 10u8]
}

/// The chunks written one after another, in order.
pub open spec fn chunks_to_bytes(chunks: Seq<ChunkView>) -> Seq<u8>
    decreases chunks.len(),
{
    if chunks.len() == 0 {
        Seq::empty()
    } else {
        chunks[0].to_bytes() + chunks_to_bytes(chunks.drop_first())
    }
}

/// A whole file: the signature, then the chunks.
pub open spec fn png_to_bytes(chunks: Seq<ChunkView>) -> Seq<u8> {
    signature() + chunks_to_bytes(chunks)
}

/// Puts the chunks already read in front of what reading the rest gave.
pub open spec fn after(done: Seq<ChunkView>, rest: Result<Seq<ChunkView>, ChunkError>) -> Result<
    Seq<ChunkView>,
    ChunkError,
> {
    match rest {
        Ok(more) => Ok(done + more),
        Err(e) => Err(e),
    }
}

/// Reading chunks until the bytes are used up. The first chunk that cannot
/// be read decides the outcome; nothing is kept of the chunks before it.
pub open spec fn parse_chunks(bytes: Seq<u8>) -> Result<Seq<ChunkView>, ChunkError>
    decreases bytes.len(),
{
    if bytes.len() == 0 {
        Ok(Seq::empty())
    } else {
        match parse_chunk(bytes) {
            Err(e) => Err(e),
            Ok(c) => after(seq![c], parse_chunks(bytes.skip(12 + c.length))),
        }
    }
}

/// Reading a whole file: the signature must come first, then chunks up to
/// the last byte.
pub open spec fn parse_png(bytes: Seq<u8>) -> Result<Seq<ChunkView>, PngError> {
    if bytes.len() < 8 || bytes.subrange(0, 8) != signature() {
        Err(PngError::InvalidSignature)
    } else {
        match parse_chunks(bytes.skip(8)) {
            Ok(chunks) => Ok(chunks),
            Err(e) => Err(PngError::Chunk(e)),
        }
    }
}

/// Whether a chunk type reads as the given text: its four bytes are the
/// UTF-8 encoding of the text.
pub open spec fn type_matches(chunk_type: Seq<u8>, text: Seq<char>) -> bool {
    chunk_type == encode_utf8(text)
}

/// A chunk type reads as the given text exactly when its bytes are
/// well-formed UTF-8 and decode to that text.
pub proof fn lemma_type_matches_text(chunk_type: Seq<u8>, text: Seq<char>)
    ensures
        type_matches(chunk_type, text) <==> valid_utf8(chunk_type) && decode_utf8(chunk_type)
            == text,
{
    if type_matches(chunk_type, text) {
        vstd::utf8::encode_utf8_valid_utf8(text);
        vstd::utf8::encode_utf8_decode_utf8(text);
    }
    if valid_utf8(chunk_type) {
        vstd::utf8::decode_utf8_encode_utf8(chunk_type);
    }
}

/// Whether some chunk has the given type.
pub open spec fn has_type(chunks: Seq<ChunkView>, text: Seq<char>) -> bool {
    exists|i: int| 0 <= i < chunks.len() && type_matches(#[trigger] chunks[i].chunk_type, text)
}

/// Whether `i` is the place of the first chunk of the given type.
pub open spec fn is_first_of_type(chunks: Seq<ChunkView>, text: Seq<char>, i: int) -> bool {
    &&& 0 <= i < chunks.len()
    &&& type_matches(chunks[i].chunk_type, text)
    &&& forall|j: int| 0 <= j < i ==> !type_matches(#[trigger] chunks[j].chunk_type, text)
}

/// The place of the first chunk of the given type, if there is one.
pub open spec fn first_of_type(chunks: Seq<ChunkView>, text: Seq<char>) -> Option<int> {
    if has_type(chunks, text) {
        Some(choose|i: int| is_first_of_type(chunks, text, i))
    } else {
        None
    }
}

/// A first chunk of a type, once found, is the one `first_of_type` names.
pub proof fn lemma_first_of_type(chunks: Seq<ChunkView>, text: Seq<char>, i: int)
    requires
        is_first_of_type(chunks, text, i),
    ensures
        first_of_type(chunks, text) == Some(i),
{
    let k = choose|k: int| is_first_of_type(chunks, text, k);
    assert(is_first_of_type(chunks, text, k));
    assert(k == i) by {
        if k < i {
            assert(!type_matches(chunks[k].chunk_type, text));
        } else if i < k {
            assert(!type_matches(chunks[i].chunk_type, text));
        }
    }
}

/// Where no chunk has the type, there is no first one.
pub proof fn lemma_no_type(chunks: Seq<ChunkView>, text: Seq<char>)
    requires
        forall|j: int| 0 <= j < chunks.len() ==> !type_matches(#[trigger] chunks[j].chunk_type, text),
    ensures
        first_of_type(chunks, text) == None::<int>,
{
}

/// The views of a run of chunks.
pub open spec fn chunk_views(chunks: Seq<Chunk>) -> Seq<ChunkView> {
    chunks.map_values(|c: Chunk| c@)
}

/// Writing one more chunk appends its bytes.
pub proof fn lemma_chunks_to_bytes_push(chunks: Seq<ChunkView>, c: ChunkView)
    ensures
        chunks_to_bytes(chunks.push(c)) == chunks_to_bytes(chunks) + c.to_bytes(),
    decreases chunks.len(),
{
    let last = c.to_bytes();
    if chunks.len() == 0 {
        assert(chunks.push(c).drop_first() =~= Seq::<ChunkView>::empty());
        assert(chunks_to_bytes(chunks.push(c).drop_first()) == Seq::<u8>::empty());
        assert(chunks_to_bytes(chunks.push(c)) == last + Seq::<u8>::empty());
        assert(last + Seq::<u8>::empty() =~= Seq::<u8>::empty() + last);
    } else {
        let head = chunks[0].to_bytes();
        let tail = chunks_to_bytes(chunks.drop_first());
        lemma_chunks_to_bytes_push(chunks.drop_first(), c);
        assert(chunks.push(c).drop_first() =~= chunks.drop_first().push(c));
        assert(chunks_to_bytes(chunks.push(c)) == head + (tail + last));
        assert(head + (tail + last) =~= (head + tail) + last);
    }
}

/// Whether each of the chunks satisfies what every chunk satisfies.
pub open spec fn all_wf(chunks: Seq<ChunkView>) -> bool {
    forall|i: int| 0 <= i < chunks.len() ==> (#[trigger] chunks[i]).wf()
}

/// Chunks written one after another are read back as the same chunks.
pub proof fn lemma_parse_chunks_of_bytes(chunks: Seq<ChunkView>)
    requires
        all_wf(chunks),
    ensures
        parse_chunks(chunks_to_bytes(chunks)) == Ok::<Seq<ChunkView>, ChunkError>(chunks),
    decreases chunks.len(),
{
    if chunks.len() == 0 {
        assert(chunks =~= Seq::<ChunkView>::empty());
    } else {
        let c = chunks[0];
        let tail = chunks.drop_first();
        assert(c.wf());
        assert(all_wf(tail)) by {
            assert forall|i: int| 0 <= i < tail.len() implies (#[trigger] tail[i]).wf() by {
                assert(tail[i] == chunks[i + 1]);
            }
        }
        lemma_parse_chunk_of_bytes(c, chunks_to_bytes(tail));
        lemma_parse_chunks_of_bytes(tail);
        assert(seq![c] + tail =~= chunks);
    }
}

/// Writing a PNG file and reading it back gives the chunks that were
/// written: the same lengths, types, payloads and checksums, in the same order.
pub proof fn lemma_parse_png_of_bytes(chunks: Seq<ChunkView>)
    requires
        all_wf(chunks),
    ensures
        parse_png(png_to_bytes(chunks)) == Ok::<Seq<ChunkView>, PngError>(chunks),
{
    let bytes = png_to_bytes(chunks);
    assert(bytes.subrange(0, 8) =~= signature());
    assert(bytes.skip(8) =~= chunks_to_bytes(chunks));
    lemma_parse_chunks_of_bytes(chunks);
}

/// Bytes that read as chunks are exactly those chunks written one after
/// another, and each chunk read satisfies what every chunk satisfies.
pub proof fn lemma_bytes_of_parse_chunks(bytes: Seq<u8>)
    requires
        parse_chunks(bytes) is Ok,
    ensures
        all_wf(parse_chunks(bytes)->Ok_0),
        chunks_to_bytes(parse_chunks(bytes)->Ok_0) == bytes,
    decreases bytes.len(),
{
    let chunks = parse_chunks(bytes)->Ok_0;
    if bytes.len() == 0 {
        assert(chunks_to_bytes(chunks) =~= bytes);
    } else {
        let c = parse_chunk(bytes)->Ok_0;
        let rest = bytes.skip(12 + c.length);
        let tail = parse_chunks(rest)->Ok_0;
        lemma_bytes_of_parse_chunk(bytes);
        lemma_bytes_of_parse_chunks(rest);
        assert(chunks == seq![c] + tail);
        assert(chunks[0] == c);
        assert(chunks.drop_first() =~= tail);
        assert(bytes.subrange(0, 12 + c.length) + rest =~= bytes);
        assert forall|i: int| 0 <= i < chunks.len() implies (#[trigger] chunks[i]).wf() by {
            if i > 0 {
                assert(chunks[i] == tail[i - 1]);
            }
        }
    }
}

/// Reading a PNG file and writing it back gives the bytes that were read.
pub proof fn lemma_bytes_of_parse_png(bytes: Seq<u8>)
    requires
        parse_png(bytes) is Ok,
    ensures
        all_wf(parse_png(bytes)->Ok_0),
        png_to_bytes(parse_png(bytes)->Ok_0) == bytes,
{
    let head = bytes.subrange(0, 8);
    let rest = bytes.skip(8);
    assert(head == signature());
    assert(parse_chunks(rest) is Ok);
    let chunks = parse_chunks(rest)->Ok_0;
    assert(parse_png(bytes)->Ok_0 == chunks);
    lemma_bytes_of_parse_chunks(rest);
    assert(png_to_bytes(chunks) == head + rest);
    assert(head + rest =~= bytes);
}

/// Appending a chunk of a type that no chunk has yet, and then removing the
/// first chunk of that type, removes the appended chunk and leaves the
/// chunks as they were.
pub proof fn lemma_append_then_remove(chunks: Seq<ChunkView>, c: ChunkView, text: Seq<char>)
    requires
        !has_type(chunks, text),
        type_matches(c.chunk_type, text),
    ensures
        first_of_type(chunks.push(c), text) == Some(chunks.len() as int),
        chunks.push(c)[chunks.len() as int] == c,
        chunks.push(c).remove(chunks.len() as int) == chunks,
{
    let grown = chunks.push(c);
    assert forall|j: int| 0 <= j < chunks.len() implies !type_matches(
        #[trigger] grown[j].chunk_type,
        text,
    ) by {
        assert(grown[j] == chunks[j]);
    }
    lemma_first_of_type(grown, text, chunks.len() as int);
    assert(grown.remove(chunks.len() as int) =~= chunks);
}

/// Whether the chunk's type reads as `text`.
fn has_type_text(chunk: &Chunk, text: &str) -> (r: bool)
    ensures
        r == type_matches(chunk@.chunk_type, text@),
{
    let raw: &[u8] = text.as_bytes();
    let tb: [u8; 4] = chunk.chunk_type().bytes();
    if raw.len() != 4 {
        return false;
    }
    let same: bool = raw[0] == tb[0] && raw[1] == tb[1] && raw[2] == tb[2] && raw[3] == tb[3];
    assert(same == (tb@ =~= raw@));
    same
}

/// A PNG file held as its chunks, in file order.
#[derive(Debug)]
pub struct Png {
    chunks: Vec<Chunk>,
}

impl View for Png {
    type V = Seq<ChunkView>;

    closed spec fn view(&self) -> Seq<ChunkView> {
        chunk_views(self.chunks@)
    }
}

impl Png {
    /// The file made of the given chunks.
    pub fn from_chunks(chunks: Vec<Chunk>) -> (p: Png)
        ensures
            p@ == chunk_views(chunks@),
    {
        Png { chunks }
    }

    /// The signature that precedes the chunks.
    pub fn header(&self) -> (h: [u8; 8])
        ensures
            h@ == signature(),
    {
        let h: [u8; 8] = [137, 80, 78, 71, 13, 10, 26, 10];
        assert(h@ =~= signature());
        h
    }

    /// The chunks, in file order.
    pub fn chunks(&self) -> (cs: &[Chunk])
        ensures
            chunk_views(cs@) == self@,
    {
        self.chunks.as_slice()
    }

    /// Adds a chunk at the end.
    pub fn append_chunk(&mut self, chunk: Chunk)
        ensures
            final(self)@ == old(self)@.push(chunk@),
    {
        self.chunks.push(chunk);
        assert(chunk_views(self.chunks@) =~= chunk_views(old(self).chunks@).push(chunk@));
    }

    /// The first chunk whose type reads as `chunk_type`, if there is one.
    pub fn chunk_by_type(&self, chunk_type: &str) -> (r: Option<&Chunk>)
        ensures
            match first_of_type(self@, chunk_type@) {
                Some(i) => r is Some && r.unwrap()@ == self@[i],
                None => r is None,
            },
    {
        let mut i: usize = 0;
        while i < self.chunks.len()
            invariant
                i <= self.chunks@.len(),
                self@ == chunk_views(self.chunks@),
                forall|j: int|
                    0 <= j < i ==> !type_matches(#[trigger] self@[j].chunk_type, chunk_type@),
            decreases self.chunks@.len() - i,
        {
            if has_type_text(&self.chunks[i], chunk_type) {
                proof {
                    lemma_first_of_type(self@, chunk_type@, i as int);
                }
                return Some(&self.chunks[i]);
            }
            i += 1;
        }
        proof {
            lemma_no_type(self@, chunk_type@);
        }
        None
    }

    /// Takes out the first chunk whose type reads as `chunk_type` and hands
    /// it back; the chunks around it keep their order. Where no chunk has
    /// that type, nothing changes and the error is `ChunkNotFound`.
    pub fn remove_chunk(&mut self, chunk_type: &str) -> (r: Result<Chunk, PngError>)
        ensures
            match first_of_type(old(self)@, chunk_type@) {
                Some(i) => r is Ok && r.unwrap()@ == old(self)@[i] && final(self)@ == old(
                    self,
                )@.remove(i),
                None => r == Err::<Chunk, PngError>(PngError::ChunkNotFound) && final(self)@
                    == old(self)@,
            },
    {
        let mut i: usize = 0;
        while i < self.chunks.len()
            invariant
                i <= self.chunks@.len(),
                *self == *old(self),
                self@ == chunk_views(self.chunks@),
                forall|j: int|
                    0 <= j < i ==> !type_matches(#[trigger] self@[j].chunk_type, chunk_type@),
            decreases self.chunks@.len() - i,
        {
            if has_type_text(&self.chunks[i], chunk_type) {
                proof {
                    lemma_first_of_type(self@, chunk_type@, i as int);
                }
                let taken: Chunk = self.chunks.remove(i);
                assert(chunk_views(self.chunks@) =~= chunk_views(old(self).chunks@).remove(
                    i as int,
                ));
                return Ok(taken);
            }
            i += 1;
        }
        proof {
            lemma_no_type(self@, chunk_type@);
        }
        Err(PngError::ChunkNotFound)
    }

    /// The whole file as bytes: the signature, then each chunk in order.
    pub fn as_bytes(&self) -> (out: Vec<u8>)
        ensures
            out@ == png_to_bytes(self@),
    {
        let mut out: Vec<u8> = Vec::new();
        out.push(137);
        out.push(80);
        out.push(78);
        out.push(71);
        out.push(13);
        out.push(10);
        out.push(26);
        out.push(10);
        assert(out@ =~= signature() + chunks_to_bytes(self@.subrange(0, 0)));
        let mut i: usize = 0;
        while i < self.chunks.len()
            invariant
                i <= self.chunks@.len(),
                self@ == chunk_views(self.chunks@),
                out@ == signature() + chunks_to_bytes(self@.subrange(0, i as int)),
            decreases self.chunks@.len() - i,
        {
            let mut piece: Vec<u8> = self.chunks[i].as_bytes();
            proof {
                lemma_chunks_to_bytes_push(self@.subrange(0, i as int), self@[i as int]);
                assert(self@.subrange(0, i as int).push(self@[i as int]) =~= self@.subrange(
                    0,
                    i + 1,
                ));
            }
            out.append(&mut piece);
            i += 1;
        }
        assert(self@.subrange(0, i as int) =~= self@);
        out
    }
}

/// A file owns its chunks, so no file can be named from bytes alone in a
/// specification: what `try_from` returns is stated on the function itself,
/// over views.
impl TryFromSpecImpl<&[u8]> for Png {
    open spec fn obeys_try_from_spec() -> bool {
        false
    }

    open spec fn try_from_spec(value: &[u8]) -> Result<Self, PngError> {
        arbitrary()
    }
}

impl TryFrom<&[u8]> for Png {
    type Error = PngError;

    /// Reads a file: the signature, then chunks up to the last byte. The
    /// outcome is the one `parse_png` gives.
    fn try_from(bytes: &[u8]) -> (r: Result<Self, PngError>)
        ensures
            match r {
                Ok(p) => parse_png(bytes@) == Ok::<Seq<ChunkView>, PngError>(p@),
                Err(e) => parse_png(bytes@) == Err::<Seq<ChunkView>, PngError>(e),
            },
    {
        let n: usize = bytes.len();
        if n < 8 {
            return Err(PngError::InvalidSignature);
        }
        if bytes[0] != 137 || bytes[1] != 80 || bytes[2] != 78 || bytes[3] != 71 || bytes[4] != 13
            || bytes[5] != 10 || bytes[6] != 26 || bytes[7] != 10 {
            assert(bytes@.subrange(0, 8) != signature()) by {
                let head = bytes@.subrange(0, 8);
                assert(head[0] == bytes@[0] && head[1] == bytes@[1] && head[2] == bytes@[2]
                    && head[3] == bytes@[3] && head[4] == bytes@[4] && head[5] == bytes@[5]
                    && head[6] == bytes@[6] && head[7] == bytes@[7]);
            }
            return Err(PngError::InvalidSignature);
        }
        assert(bytes@.subrange(0, 8) =~= signature());
        let mut chunks: Vec<Chunk> = Vec::new();
        let mut pos: usize = 8;
        assert(after(chunk_views(chunks@), parse_chunks(bytes@.skip(8))) == parse_chunks(
            bytes@.skip(8),
        )) by {
            let r = parse_chunks(bytes@.skip(8));
            if r is Ok {
                assert(chunk_views(chunks@) + r->Ok_0 =~= r->Ok_0);
            }
        }
        while pos < n
            invariant
                n == bytes@.len(),
                8 <= pos <= n,
                bytes@.subrange(0, 8) == signature(),
                parse_chunks(bytes@.skip(8)) == after(
                    chunk_views(chunks@),
                    parse_chunks(bytes@.skip(pos as int)),
                ),
            decreases n - pos,
        {
            let rest: &[u8] = slice_subrange(bytes, pos, n);
            assert(rest@ =~= bytes@.skip(pos as int));
            match Chunk::try_from(rest) {
                Err(e) => {
                    assert(parse_chunks(rest@) == Err::<Seq<ChunkView>, ChunkError>(e));
                    return Err(PngError::Chunk(e));
                },
                Ok(c) => {
                    let used: usize = 12 + c.length() as usize;
                    proof {
                        let tail = parse_chunks(rest@.skip(used as int));
                        assert(rest@.skip(used as int) =~= bytes@.skip(pos + used));
                        assert(parse_chunks(rest@) == after(seq![c@], tail));
                        if tail is Ok {
                            assert(chunk_views(chunks@) + (seq![c@] + tail->Ok_0) =~= chunk_views(
                                chunks@.push(c),
                            ) + tail->Ok_0);
                        }
                    }
                    pos = pos + used;
                    chunks.push(c);
                },
            }
        }
        proof {
            assert(bytes@.skip(pos as int).len() == 0);
            assert(chunk_views(chunks@) + Seq::<ChunkView>::empty() =~= chunk_views(chunks@));
        }
        Ok(Png { chunks })
    }
}

} // verus!
