//! Chunks: a length, a type, a payload and the checksum over type and payload.

use crate::checksum::{checksum, crc32_iso_hdlc};
use crate::chunk_type::ChunkType;
use crate::endian::{
    be_bytes, be_value, lemma_be_bytes_of_value, lemma_be_value_injective, lemma_be_value_of_bytes,
    read_be, write_be,
};
use crate::text::{byte_list_text, list_text, string_from_utf8};
use vstd::prelude::*;
use vstd::slice::{slice_subrange, slice_to_vec};
use vstd::std_specs::convert::TryFromSpecImpl;
use vstd::utf8::{decode_utf8, valid_utf8};

verus! {

/// Why bytes could not be read as a chunk, or a chunk's payload as text.
#[derive(Debug, Clone, Copy, PartialEq, Eq, Structural)]
pub enum ChunkError {
    /// The bytes end before the chunk they announce is complete.
    UnexpectedEof,
    /// The stored checksum is not the checksum of the type and payload.
    InvalidCRC,
    /// The payload is not well-formed UTF-8.
    TextDecodeError,
}

/// A chunk as plain values.
pub struct ChunkView {
    /// Number of payload bytes.
    pub length: u32,
    /// The four bytes of the type code.
    pub chunk_type: Seq<u8>,
    /// The payload.
    pub data: Seq<u8>,
    /// The stored checksum.
    pub crc: u32,
}

impl ChunkView {
    /// The chunk made of a type and a payload: its length counts the payload
    /// and its checksum covers the type followed by the payload.
    pub open spec fn new(chunk_type: Seq<u8>, data: Seq<u8>) -> ChunkView {
        ChunkView {
            length: data.len() as u32,
            chunk_type,
            data,
            crc: crc32_iso_hdlc(chunk_type + data),
        }
    }

    /// What every chunk satisfies: a four-byte type, a length that counts the
    /// payload, and a checksum that matches type and payload.
    pub open spec fn wf(self) -> bool {
        &&& self.chunk_type.len() == 4
        &&& self.data.len() == self.length
        &&& self.crc == crc32_iso_hdlc(self.chunk_type + self.data)
    }

    /// The chunk on the wire: length, type, payload, checksum, the two
    /// numbers in big-endian order.
    pub open spec fn to_bytes(self) -> Seq<u8> {
        be_bytes(self.length) + self.chunk_type + self.data + be_bytes(self.crc)
    }
}

/// Reading one chunk from the front of `bytes`. Bytes after the chunk are
/// ignored. The input is too short when it cannot hold the twelve framing
/// bytes plus the payload length it announces; a complete chunk is accepted
/// only if its stored checksum is the checksum of its type and payload.
pub open spec fn parse_chunk(bytes: Seq<u8>) -> Result<ChunkView, ChunkError> {
    if bytes.len() < 4 || bytes.len() < 12 + be_value(bytes.subrange(0, 4)) {
        Err(ChunkError::UnexpectedEof)
    } else {
        let length = be_value(bytes.subrange(0, 4));
        let chunk_type = bytes.subrange(4, 8);
        let data = bytes.subrange(8, 8 + length);
        let crc = be_value(bytes.subrange(8 + length, 12 + length));
        if crc != crc32_iso_hdlc(chunk_type + data) {
            Err(ChunkError::InvalidCRC)
        } else {
            Ok(ChunkView { length, chunk_type, data, crc })
        }
    }
}

/// A chunk is read back from its own bytes, whatever follows them, and the
/// bytes that follow are what is left to read.
pub proof fn lemma_parse_chunk_of_bytes(c: ChunkView, rest: Seq<u8>)
    requires
        c.wf(),
    ensures
        c.to_bytes().len() == 12 + c.length,
        parse_chunk(c.to_bytes() + rest) == Ok::<ChunkView, ChunkError>(c),
        (c.to_bytes() + rest).skip(12 + c.length) == rest,
{
    let bytes = c.to_bytes() + rest;
    lemma_be_value_of_bytes(c.length);
    lemma_be_value_of_bytes(c.crc);
    assert(bytes.subrange(0, 4) =~= be_bytes(c.length));
    assert(bytes.subrange(4, 8) =~= c.chunk_type);
    assert(bytes.subrange(8, 8 + c.length) =~= c.data);
    assert(bytes.subrange(8 + c.length, 12 + c.length) =~= be_bytes(c.crc));
    assert(bytes.skip(12 + c.length) =~= rest);
}

/// Bytes that read as a chunk start with exactly the bytes of that chunk,
/// and the chunk read satisfies what every chunk satisfies.
pub proof fn lemma_bytes_of_parse_chunk(bytes: Seq<u8>)
    requires
        parse_chunk(bytes) is Ok,
    ensures
        ({
            let c = parse_chunk(bytes)->Ok_0;
            &&& c.wf()
            &&& 12 + c.length <= bytes.len()
            &&& bytes.subrange(0, 12 + c.length) == c.to_bytes()
        }),
{
    let c = parse_chunk(bytes)->Ok_0;
    lemma_be_bytes_of_value(bytes.subrange(0, 4));
    lemma_be_bytes_of_value(bytes.subrange(8 + c.length, 12 + c.length));
    assert(bytes.subrange(0, 12 + c.length) =~= c.to_bytes());
}

/// Type and payload decide the rest of a chunk: two chunks that agree on
/// both agree on length and checksum too.
pub proof fn lemma_chunk_decided_by_type_and_data(a: ChunkView, b: ChunkView)
    requires
        a.wf(),
        b.wf(),
        a.chunk_type == b.chunk_type,
        a.data == b.data,
    ensures
        a.crc == b.crc,
        a == b,
{
}

/// Damage to the stored checksum alone is always detected: bytes that read
/// as a chunk no longer do once any of the four checksum bytes is changed.
pub proof fn lemma_damaged_checksum_is_rejected(good: Seq<u8>, bad: Seq<u8>)
    requires
        parse_chunk(good) is Ok,
        bad.len() == good.len(),
        ({
            let n = 8 + parse_chunk(good)->Ok_0.length;
            &&& bad.subrange(0, n) == good.subrange(0, n)
            &&& bad.subrange(n, n + 4) != good.subrange(n, n + 4)
        }),
    ensures
        parse_chunk(bad) == Err::<ChunkView, ChunkError>(ChunkError::InvalidCRC),
{
    let c = parse_chunk(good)->Ok_0;
    let n = 8 + c.length;
    assert(bad.subrange(0, 4) =~= bad.subrange(0, n).subrange(0, 4));
    assert(good.subrange(0, 4) =~= good.subrange(0, n).subrange(0, 4));
    assert(bad.subrange(4, 8) =~= bad.subrange(0, n).subrange(4, 8));
    assert(good.subrange(4, 8) =~= good.subrange(0, n).subrange(4, 8));
    assert(bad.subrange(8, n) =~= bad.subrange(0, n).subrange(8, n));
    assert(good.subrange(8, n) =~= good.subrange(0, n).subrange(8, n));
    if be_value(bad.subrange(n, n + 4)) == be_value(good.subrange(n, n + 4)) {
        lemma_be_value_injective(bad.subrange(n, n + 4), good.subrange(n, n + 4));
    }
}

/// Damage to the payload is detected unless the damaged payload has the
/// checksum of the undamaged one: with length, type and stored checksum
/// untouched, the bytes are rejected exactly when the checksum over type and
/// payload has changed.
pub proof fn lemma_damaged_payload_is_rejected(good: Seq<u8>, bad: Seq<u8>)
    requires
        parse_chunk(good) is Ok,
        bad.len() == good.len(),
        ({
            let n = 8 + parse_chunk(good)->Ok_0.length;
            &&& bad.subrange(0, 8) == good.subrange(0, 8)
            &&& bad.subrange(n, n + 4) == good.subrange(n, n + 4)
        }),
    ensures
        ({
            let n = 8 + parse_chunk(good)->Ok_0.length;
            let same_sum = crc32_iso_hdlc(bad.subrange(4, n)) == crc32_iso_hdlc(
                good.subrange(4, n),
            );
            &&& !same_sum ==> parse_chunk(bad) == Err::<ChunkView, ChunkError>(
                ChunkError::InvalidCRC,
            )
            &&& same_sum ==> parse_chunk(bad) is Ok
        }),
{
    let c = parse_chunk(good)->Ok_0;
    let n = 8 + c.length;
    assert(bad.subrange(0, 4) =~= bad.subrange(0, 8).subrange(0, 4));
    assert(good.subrange(0, 4) =~= good.subrange(0, 8).subrange(0, 4));
    assert(bad.subrange(4, 8) =~= bad.subrange(0, 8).subrange(4, 8));
    assert(good.subrange(4, 8) =~= good.subrange(0, 8).subrange(4, 8));
    assert(bad.subrange(4, n) =~= bad.subrange(4, 8) + bad.subrange(8, n));
    assert(good.subrange(4, n) =~= good.subrange(4, 8) + good.subrange(8, n));
}

/// One chunk of a PNG file. Its checksum is computed or verified when the
/// chunk comes into being and cannot be set from outside.
#[derive(Debug)]
pub struct Chunk {
    length: u32,
    chunk_type: ChunkType,
    data: Vec<u8>,
    crc: u32,
}

impl View for Chunk {
    type V = ChunkView;

    closed spec fn view(&self) -> ChunkView {
        ChunkView {
            length: self.length,
            chunk_type: self.chunk_type@,
            data: self.data@,
            crc: self.crc,
        }
    }
}

impl Chunk {
    #[verifier::type_invariant]
    spec fn inv(&self) -> bool {
        self@.wf()
    }

    /// Builds the chunk of the given type and payload, computing its checksum.
    pub fn new(chunk_type: ChunkType, data: Vec<u8>) -> (c: Chunk)
        requires
            data@.len() <= u32::MAX,
        ensures
            c@ == ChunkView::new(chunk_type@, data@),
            c@.wf(),
    {
        let length: u32 = data.len() as u32;
        let tb: [u8; 4] = chunk_type.bytes();
        let mut covered: Vec<u8> = Vec::new();
        covered.push(tb[0]);
        covered.push(tb[1]);
        covered.push(tb[2]);
        covered.push(tb[3]);
        let mut i: usize = 0;
        while i < data.len()
            invariant
                i <= data@.len(),
                covered@ == chunk_type@ + data@.subrange(0, i as int),
            decreases data@.len() - i,
        {
            covered.push(data[i]);
            i += 1;
        }
        assert(data@.subrange(0, i as int) =~= data@);
        let crc: u32 = checksum(covered.as_slice());
        Chunk { length, chunk_type, data, crc }
    }

    /// Number of payload bytes.
    pub fn length(&self) -> (n: u32)
        ensures
            n == self@.length,
            self@.wf(),
    {
        proof {
            use_type_invariant(self);
        }
        self.length
    }

    /// The chunk's type code.
    pub fn chunk_type(&self) -> (t: &ChunkType)
        ensures
            t@ == self@.chunk_type,
            self@.wf(),
    {
        proof {
            use_type_invariant(self);
        }
        &self.chunk_type
    }

    /// The payload.
    pub fn data(&self) -> (d: &[u8])
        ensures
            d@ == self@.data,
            self@.wf(),
    {
        proof {
            use_type_invariant(self);
        }
        self.data.as_slice()
    }

    /// The stored checksum.
    pub fn crc(&self) -> (sum: u32)
        ensures
            sum == self@.crc,
            self@.wf(),
    {
        proof {
            use_type_invariant(self);
        }
        self.crc
    }

    /// The payload as text: the characters it encodes in UTF-8, or
    /// `TextDecodeError` when it is not well-formed UTF-8.
    pub fn data_as_string(&self) -> (r: Result<String, ChunkError>)
        ensures
            match r {
                Ok(s) => valid_utf8(self@.data) && s@ == decode_utf8(self@.data),
                Err(e) => !valid_utf8(self@.data) && e == ChunkError::TextDecodeError,
            },
    {
        broadcast use vstd::utf8::encode_utf8_decode_utf8;

        let copy: Vec<u8> = slice_to_vec(self.data.as_slice());
        match string_from_utf8(copy) {
            Ok(s) => Ok(s),
            Err(_) => Err(ChunkError::TextDecodeError),
        }
    }

    /// The chunk for display: its bytes on the wire as a bracketed list of
    /// decimal numbers.
    pub fn to_string(&self) -> (s: String)
        ensures
            s@ == list_text(self@.to_bytes()),
    {
        let bytes: Vec<u8> = self.as_bytes();
        byte_list_text(bytes.as_slice())
    }

    /// The chunk on the wire.
    pub fn as_bytes(&self) -> (out: Vec<u8>)
        ensures
            out@ == self@.to_bytes(),
            out@.len() == 12 + self@.length,
            self@.wf(),
    {
        proof {
            use_type_invariant(self);
            lemma_be_value_of_bytes(self.length);
            lemma_be_value_of_bytes(self.crc);
        }
        let tb: [u8; 4] = self.chunk_type.bytes();
        let mut out: Vec<u8> = Vec::new();
        write_be(&mut out, self.length);
        out.push(tb[0]);
        out.push(tb[1]);
        out.push(tb[2]);
        out.push(tb[3]);
        assert(out@ =~= be_bytes(self.length) + self.chunk_type@);
        let mut i: usize = 0;
        while i < self.data.len()
            invariant
                i <= self.data@.len(),
                out@ == be_bytes(self.length) + self.chunk_type@ + self.data@.subrange(0, i as int),
            decreases self.data@.len() - i,
        {
            out.push(self.data[i]);
            i += 1;
        }
        assert(self.data@.subrange(0, i as int) =~= self.data@);
        write_be(&mut out, self.crc);
        out
    }
}

/// A chunk owns its payload, so no chunk can be named from bytes alone in a
/// specification: what `try_from` returns is stated on the function itself,
/// over views.
impl TryFromSpecImpl<&[u8]> for Chunk {
    open spec fn obeys_try_from_spec() -> bool {
        false
    }

    open spec fn try_from_spec(value: &[u8]) -> Result<Self, ChunkError> {
        arbitrary()
    }
}

impl TryFrom<&[u8]> for Chunk {
    type Error = ChunkError;

    /// Reads one chunk from the front of `bytes` and verifies its checksum.
    /// The outcome is the one `parse_chunk` gives.
    fn try_from(bytes: &[u8]) -> (r: Result<Self, ChunkError>)
        ensures
            match r {
                Ok(c) => parse_chunk(bytes@) == Ok::<ChunkView, ChunkError>(c@) && c@.wf(),
                Err(e) => parse_chunk(bytes@) == Err::<ChunkView, ChunkError>(e),
            },
    {
        let n: usize = bytes.len();
        if n < 4 {
            return Err(ChunkError::UnexpectedEof);
        }
        let length: u32 = read_be(bytes, 0);
        if n < 12 || n - 12 < length as usize {
            return Err(ChunkError::UnexpectedEof);
        }
        let len: usize = length as usize;
        let chunk_type = ChunkType::new([bytes[4], bytes[5], bytes[6], bytes[7]]);
        assert(chunk_type@ =~= bytes@.subrange(4, 8));
        let data: Vec<u8> = slice_to_vec(slice_subrange(bytes, 8, 8 + len));
        let crc: u32 = read_be(bytes, 8 + len);
        let computed: u32 = checksum(slice_subrange(bytes, 4, 8 + len));
        assert(bytes@.subrange(4, 8 + len) =~= chunk_type@ + data@);
        if crc != computed {
            return Err(ChunkError::InvalidCRC);
        }
        Ok(Chunk { length, chunk_type, data, crc })
    }
}

} // verus!
