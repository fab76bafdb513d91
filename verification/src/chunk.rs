//! A chunk: a type code, a payload, and the checksum of both; and its
//! binary record.

use vstd::prelude::*;
use vstd::utf8::{valid_utf8, decode_utf8};
use crate::checksum::{crc32, checksum};
use crate::chunk_type::{ChunkType, type_code_of, is_type_code, ascii_text};
use vstd::string::StringExecFns;
use crate::error::{Error, Failure, decode_text};
use crate::wire::{be_bytes, be_value, to_be, from_be, lemma_be_value_of_bytes, copy_range,
    copy_bytes};

verus! {

/// The mathematical content of a chunk.
pub ghost struct ChunkView {
    pub chunk_type: Seq<u8>,
    pub data: Seq<u8>,
    pub crc: u32,
}

/// The chunk with type code `t` and payload `d`: its checksum covers the
/// type code followed by the payload.
pub open spec fn chunk_of(t: Seq<u8>, d: Seq<u8>) -> ChunkView {
    ChunkView { chunk_type: t, data: d, crc: crc32(t + d) }
}

/// A chunk is sound when its type is a type code and its checksum is the one
/// of its content.
pub open spec fn sound(c: ChunkView) -> bool {
    is_type_code(c.chunk_type) && c.crc == crc32(c.chunk_type + c.data)
}

/// The length field of a record: the payload's length, reduced to 32 bits.
pub open spec fn length_field(d: Seq<u8>) -> u32 {
    (d.len() % 0x1_0000_0000) as u32
}

/// The binary record of a chunk: length, type code, payload, checksum.
pub open spec fn record_of(c: ChunkView) -> Seq<u8> {
    be_bytes(length_field(c.data)) + c.chunk_type + c.data + be_bytes(c.crc)
}

/// What parsing gives on a buffer that starts at a record's type field,
/// when the payload is declared `size` bytes long. Bytes behind the record
/// are not looked at.
pub open spec fn parse_sized(size: nat, b: Seq<u8>) -> Result<ChunkView, Failure> {
    if b.len() < 4 {
        Err(Failure::ChunkTypeReadError)
    } else {
        match type_code_of(b.subrange(0, 4)) {
            Err(e) => Err(e),
            Ok(t) => {
                if b.len() < 4 + size {
                    Err(Failure::ChunkDataReadError)
                } else if b.len() < 8 + size {
                    Err(Failure::ChunkCrcReadError)
                } else {
                    let d = b.subrange(4, 4 + size as int);
                    let stored = be_value(b.subrange(4 + size as int, 8 + size as int));
                    if crc32(t + d) != stored {
                        Err(Failure::ChunkCrcMismatch { expect: stored, actual: crc32(t + d) })
                    } else {
                        Ok(chunk_of(t, d))
                    }
                }
            },
        }
    }
}

/// What parsing gives on a buffer that starts at a record's length field.
pub open spec fn parse_record(b: Seq<u8>) -> Result<ChunkView, Failure> {
    if b.len() < 4 {
        Err(Failure::ChunkSizeReadError)
    } else {
        parse_sized(be_value(b.subrange(0, 4)) as nat, b.skip(4))
    }
}

/// The model of a parse's outcome.
pub open spec fn chunk_result(r: Result<Chunk, Error>) -> Result<ChunkView, Failure> {
    match r {
        Ok(c) => Ok(c@),
        Err(e) => Err(e@),
    }
}

/// The field of a record that is being read.
pub enum ChunkPart {
    Type,
    Crc,
    Size,
}

impl ChunkPart {
    /// The failure reported when the buffer ends inside this field.
    pub open spec fn failure(self) -> Failure {
        match self {
            ChunkPart::Size => Failure::ChunkSizeReadError,
            ChunkPart::Type => Failure::ChunkTypeReadError,
            ChunkPart::Crc => Failure::ChunkCrcReadError,
        }
    }
}

/// Reads the four bytes of a field at `start`, or reports that the buffer
/// ends inside the field.
pub fn get_4_bytes(bytes: &[u8], start: usize, part: ChunkPart) -> (res: Result<[u8; 4], Error>)
    requires
        start <= bytes@.len(),
    ensures
        bytes@.len() - start < 4 ==> (res matches Err(e) && e@ == part.failure()),
        bytes@.len() - start >= 4 ==> (res matches Ok(a) && a@ == bytes@.subrange(
            start as int,
            start + 4,
        )),
{
    if bytes.len() - start < 4 {
        return Err(
            match part {
                ChunkPart::Size => Error::ChunkSizeReadError,
                ChunkPart::Type => Error::ChunkTypeReadError,
                ChunkPart::Crc => Error::ChunkCrcReadError,
            },
        );
    }
    let buffer: [u8; 4] = [bytes[start], bytes[start + 1], bytes[start + 2], bytes[start + 3]];
    assert(buffer@ =~= bytes@.subrange(start as int, start + 4));
    Ok(buffer)
}

/// Parses the record whose type field starts at `start`, with a payload of
/// `size` bytes.
pub fn sized_record_at(size: usize, bytes: &[u8], start: usize) -> (res: Result<Chunk, Error>)
    requires
        start <= bytes@.len(),
    ensures
        chunk_result(res) == parse_sized(size as nat, bytes@.skip(start as int)),
        res matches Ok(c) ==> c.wf(),
{
    let ghost b = bytes@.skip(start as int);
    let code = match get_4_bytes(bytes, start, ChunkPart::Type) {
        Ok(a) => a,
        Err(e) => { return Err(e); },
    };
    assert(code@ =~= b.subrange(0, 4));
    let chunk_type = match ChunkType::try_from(code) {
        Ok(t) => t,
        Err(e) => { return Err(e); },
    };
    let remaining: usize = bytes.len() - start - 4;
    if remaining < size {
        return Err(Error::ChunkDataReadError);
    }
    let data = copy_range(bytes, start + 4, start + 4 + size);
    assert(data@ =~= b.subrange(4, 4 + size));
    let field = match get_4_bytes(bytes, start + 4 + size, ChunkPart::Crc) {
        Ok(a) => a,
        Err(e) => { return Err(e); },
    };
    assert(field@ =~= b.subrange(4 + size, 8 + size));
    let crc = from_be(field);
    Chunk::new(chunk_type, data).expect_crc(crc)
}

/// Parses the record whose length field starts at `start`.
pub fn record_at(bytes: &[u8], start: usize) -> (res: Result<Chunk, Error>)
    requires
        start <= bytes@.len(),
    ensures
        chunk_result(res) == parse_record(bytes@.skip(start as int)),
        res matches Ok(c) ==> c.wf(),
{
    let ghost b = bytes@.skip(start as int);
    let field = match get_4_bytes(bytes, start, ChunkPart::Size) {
        Ok(a) => a,
        Err(e) => { return Err(e); },
    };
    let remaining: usize = bytes.len() - start;
    assert(remaining >= 4);
    assert(field@ =~= b.subrange(0, 4));
    let size = from_be(field) as usize;
    assert(bytes@.skip(start + 4) =~= b.skip(4));
    sized_record_at(size, bytes, start + 4)
}

#[derive(Debug)]
pub struct Chunk {
    chunk_type: ChunkType,
    data: Vec<u8>,
    crc: u32,
}

impl View for Chunk {
    type V = ChunkView;

    closed spec fn view(&self) -> ChunkView {
        ChunkView { chunk_type: self.chunk_type@, data: self.data@, crc: self.crc }
    }
}

impl Chunk {
    /// The invariant of the type: a type code, and the checksum of the
    /// content.
    pub open spec fn wf(&self) -> bool {
        sound(self@)
    }

    /// A chunk of the given type and payload, with its checksum.
    pub fn new(chunk_type: ChunkType, data: Vec<u8>) -> (res: Chunk)
        requires
            chunk_type.wf(),
        ensures
            res@ == chunk_of(chunk_type@, data@),
            res.wf(),
    {
        let crc = Chunk::check_crc(&chunk_type, &data);
        Chunk { chunk_type, data, crc }
    }

    /// The checksum of a type code followed by a payload.
    pub fn check_crc(chunk_type: &ChunkType, data: &Vec<u8>) -> (res: u32)
        ensures
            res == crc32(chunk_type@ + data@),
    {
        let mut buffer: Vec<u8> = copy_bytes(chunk_type.bytes());
        buffer.extend_from_slice(data.as_slice());
        assert(buffer@ =~= chunk_type@ + data@);
        checksum(buffer.as_slice())
    }

    /// The integrity gate of parsing: lets the chunk through when its
    /// checksum is the stored one, and otherwise refuses it with both.
    pub fn expect_crc(self, stored: u32) -> (res: Result<Chunk, Error>)
        ensures
            self@.crc == stored ==> res == Ok::<Chunk, Error>(self),
            self@.crc != stored ==> (res matches Err(e) && e@ == (Failure::ChunkCrcMismatch {
                expect: stored,
                actual: self@.crc,
            })),
    {
        if self.crc != stored {
            Err(Error::ChunkCrcMismatch { expect: stored, actual: self.crc })
        } else {
            Ok(self)
        }
    }

    /// Replaces the payload and brings the checksum up to date.
    pub fn update_data(&mut self, data: Vec<u8>)
        requires
            old(self).wf(),
        ensures
            final(self)@ == chunk_of(old(self)@.chunk_type, data@),
            final(self).wf(),
    {
        let crc = Chunk::check_crc(&self.chunk_type, &data);
        self.data = data;
        self.crc = crc;
    }

    /// The payload's length.
    pub fn length(&self) -> (res: usize)
        ensures
            res == self@.data.len(),
    {
        self.data.len()
    }

    /// The type code.
    pub fn chunk_type(&self) -> (res: &ChunkType)
        ensures
            res@ == self@.chunk_type,
    {
        &self.chunk_type
    }

    /// The payload.
    pub fn data(&self) -> (res: &Vec<u8>)
        ensures
            res@ == self@.data,
    {
        &self.data
    }

    /// The checksum.
    pub fn crc(&self) -> (res: u32)
        ensures
            res == self@.crc,
    {
        self.crc
    }

    /// The payload as text: its decoding where it is valid UTF-8, else a
    /// failure that carries the payload.
    pub fn data_as_string(&self) -> (res: Result<String, Error>)
        ensures
            valid_utf8(self@.data) ==> (res matches Ok(s) && s@ == decode_utf8(self@.data)),
            !valid_utf8(self@.data) ==> (res matches Err(e) && e@ == (Failure::ChunkDataNotUtf8 {
                bytes: self@.data,
            })),
    {
        match decode_text(self.data.as_slice()) {
            Ok(s) => Ok(s.to_owned()),
            Err(err) => Err(Error::ChunkDataNotUtf8 { bytes: copy_bytes(self.data.as_slice()), err }),
        }
    }

    /// The chunk as one line of text: its type code, a space, then the
    /// debug rendering of its payload read as text, or of the failure to
    /// read it so.
    pub fn to_string(&self) -> (res: String)
        ensures
            self.wf() ==> starts_with(res@, ascii_text(self@.chunk_type).push(' ')),
            self.wf() && valid_utf8(self@.data) ==> res@ == ascii_text(self@.chunk_type).push(' ')
                + reading_debug(decode_utf8(self@.data)),
    {
        let code = self.chunk_type.to_string();
        let text = self.data_as_string();
        let tail = debug_of_reading(&text);
        proof {
            reveal_strlit(" ");
            assert(" "@ =~= seq![' ']);
            assert(code@ + seq![' '] =~= code@.push(' '));
        }
        let head = code.concat(" ");
        let res = head.concat(tail.as_str());
        assert(res@.subrange(0, head@.len() as int) =~= head@);
        res
    }

    /// Right-aligns one to four bytes in a field of four, padding with zeros.
    pub fn fix_4_bytes(&self, bytes: &[u8]) -> (res: [u8; 4])
        requires
            1 <= bytes@.len() <= 4,
        ensures
            forall|k: int| 0 <= k < 4 - bytes@.len() ==> res@[k] == 0,
            forall|k: int| 4 - bytes@.len() <= k < 4 ==> res@[k] == bytes@[k - (4 - bytes@.len())],
    {
        let mut result: [u8; 4] = [0u8;4];
        let max_index: usize = bytes.len() - 1;
        let mut index: usize = max_index;
        loop
            invariant
                max_index == bytes@.len() - 1,
                0 <= index <= max_index < 4,
                forall|k: int| 0 <= k < 3 - (max_index - index) ==> result@[k] == 0,
                forall|k: int| 3 - (max_index - index) < k < 4 ==> result@[k] == bytes@[k - (3 - max_index)],
            ensures
                forall|k: int| 0 <= k < 3 - max_index ==> result@[k] == 0,
                forall|k: int| 3 - max_index <= k < 4 ==> result@[k] == bytes@[k - (3 - max_index)],
            decreases index,
        {
            result[3 - (max_index - index)] = bytes[index];
            if index == 0 {
                break;
            }
            index -= 1;
        }
        result
    }

    /// The length field of the chunk's record.
    pub fn size_as_bytes(&self) -> (res: [u8; 4])
        ensures
            res@ == be_bytes(length_field(self@.data)),
    {
        let length: u64 = self.length() as u64;
        let bytes = to_be((length % 0x1_0000_0000) as u32);
        let res = self.fix_4_bytes(bytes.as_slice());
        assert(res@ =~= bytes@);
        res
    }

    /// The checksum field of the chunk's record.
    pub fn crc_as_bytes(&self) -> (res: [u8; 4])
        ensures
            res@ == be_bytes(self@.crc),
    {
        let bytes = to_be(self.crc);
        let res = self.fix_4_bytes(bytes.as_slice());
        assert(res@ =~= bytes@);
        res
    }

    /// The chunk's binary record.
    pub fn as_bytes(&self) -> (res: Vec<u8>)
        ensures
            res@ == record_of(self@),
    {
        let mut out: Vec<u8> = Vec::new();
        out.extend_from_slice(self.size_as_bytes().as_slice());
        out.extend_from_slice(self.chunk_type.bytes());
        out.extend_from_slice(self.data.as_slice());
        out.extend_from_slice(self.crc_as_bytes().as_slice());
        assert(out@ =~= record_of(self@));
        out
    }

    /// Parses a record from a buffer that starts at its type field, with a
    /// payload of `size` bytes.
    pub fn try_from_sized(size: usize, value: &Vec<u8>) -> (res: Result<Chunk, Error>)
        ensures
            chunk_result(res) == parse_sized(size as nat, value@),
            res matches Ok(c) ==> c.wf(),
    {
        assert(value@.skip(0) =~= value@);
        sized_record_at(size, value.as_slice(), 0)
    }

    /// Parses a record from a buffer that starts at its length field.
    pub fn try_from(value: &Vec<u8>) -> (res: Result<Chunk, Error>)
        ensures
            chunk_result(res) == parse_record(value@),
            res matches Ok(c) ==> c.wf(),
    {
        assert(value@.skip(0) =~= value@);
        record_at(value.as_slice(), 0)
    }
}

/// `s` begins with `prefix`.
pub open spec fn starts_with(s: Seq<char>, prefix: Seq<char>) -> bool {
    s.len() >= prefix.len() && s.subrange(0, prefix.len() as int) == prefix
}

/// The `{:?}` rendering of a payload that was read as the given text.
pub uninterp spec fn reading_debug(text: Seq<char>) -> Seq<char>;

/// Calls `format!` with the `{:?}` rendering of a payload's reading.
/// Trusted: for a payload that was read as text, the rendering depends on
/// that text alone. Of the rendering of a failure nothing is claimed.
#[verifier::external_body]
fn debug_of_reading(text: &Result<String, Error>) -> (res: String)
    ensures
        text matches Ok(s) ==> res@ == reading_debug(s@),
{
    format!("{:?}", text)
}

/// A record parses back to the chunk it was written from, whatever follows
/// it in the buffer, as long as the payload's length fits the length field.
pub proof fn lemma_record_round_trip(t: Seq<u8>, d: Seq<u8>, rest: Seq<u8>)
    requires
        is_type_code(t),
        d.len() < 0x1_0000_0000,
    ensures
        record_of(chunk_of(t, d)).len() == 12 + d.len(),
        parse_record(record_of(chunk_of(t, d)) + rest) == Ok::<ChunkView, Failure>(chunk_of(t, d)),
{
    let c = chunk_of(t, d);
    let b = record_of(c) + rest;
    lemma_be_value_of_bytes(length_field(d));
    lemma_be_value_of_bytes(c.crc);
    assert(b.subrange(0, 4) =~= be_bytes(length_field(d)));
    let body = b.skip(4);
    let n = d.len() as int;
    assert(body.subrange(0, 4) =~= t);
    assert(body.subrange(4, 4 + n) =~= d);
    assert(body.subrange(4 + n, 8 + n) =~= be_bytes(c.crc));
}

/// A record whose stored checksum is not the checksum of its type code and
/// payload is refused with both checksums, whatever else it holds.
pub proof fn lemma_checksum_guards_record(t: Seq<u8>, d: Seq<u8>, stored: u32, rest: Seq<u8>)
    requires
        is_type_code(t),
        d.len() < 0x1_0000_0000,
        stored != crc32(t + d),
    ensures
        parse_record(be_bytes(length_field(d)) + t + d + be_bytes(stored) + rest)
            == Err::<ChunkView, Failure>(
            Failure::ChunkCrcMismatch { expect: stored, actual: crc32(t + d) },
        ),
{
    let b = be_bytes(length_field(d)) + t + d + be_bytes(stored) + rest;
    lemma_be_value_of_bytes(length_field(d));
    lemma_be_value_of_bytes(stored);
    assert(b.subrange(0, 4) =~= be_bytes(length_field(d)));
    let body = b.skip(4);
    let n = d.len() as int;
    assert(body.subrange(0, 4) =~= t);
    assert(body.subrange(4, 4 + n) =~= d);
    assert(body.subrange(4 + n, 8 + n) =~= be_bytes(stored));
}

} // verus!
