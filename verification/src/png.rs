//! The document: the fixed signature and the chunks in file order.

use vstd::prelude::*;
use crate::chunk::{Chunk, ChunkView, chunk_of, sound, record_of, parse_record, record_at,
    lemma_record_round_trip};
use crate::chunk_type::{ChunkType, type_code_of_text};
use crate::wire::copy_range;
use crate::error::{Error, Failure};

verus! {

/// The eight bytes that every document starts with.
pub open spec fn signature() -> Seq<u8> {
    seq![137u8, 80u8, 78u8, 71u8, 13u8, 10u8, 26u8, 10u8]
}

/// The records of the chunks, one after the other.
pub open spec fn records_of(cs: Seq<ChunkView>) -> Seq<u8>
    decreases cs.len(),
{
    if cs.len() == 0 {
        Seq::empty()
    } else {
        record_of(cs[0]) + records_of(cs.drop_first())
    }
}

/// The bytes of a document: the signature, then the records.
pub open spec fn document_of(cs: Seq<ChunkView>) -> Seq<u8> {
    signature() + records_of(cs)
}

/// What parsing gives on a buffer of records: the chunks in the order met,
/// or the failure of the first record that does not parse.
pub open spec fn parse_chunks(b: Seq<u8>) -> Result<Seq<ChunkView>, Failure>
    decreases b.len(),
{
    if b.len() == 0 {
        Ok(Seq::empty())
    } else {
        match parse_record(b) {
            Err(e) => Err(e),
            Ok(c) => {
                prepend(seq![c], parse_chunks(b.skip(12 + c.data.len() as int)))
            },
        }
    }
}

/// Puts the chunks `acc` in front of the outcome of parsing what follows.
pub open spec fn prepend(acc: Seq<ChunkView>, r: Result<Seq<ChunkView>, Failure>) -> Result<
    Seq<ChunkView>,
    Failure,
> {
    match r {
        Ok(rest) => Ok(acc + rest),
        Err(e) => Err(e),
    }
}

/// What parsing gives on a whole buffer: a buffer shorter than the signature
/// and one that starts otherwise are refused; then the records are parsed to
/// the buffer's end.
pub open spec fn parse_document(b: Seq<u8>) -> Result<Seq<ChunkView>, Failure> {
    if b.len() < 8 {
        Err(Failure::HeaderLenMisMatch { actual: b.len() })
    } else if b.subrange(0, 8) != signature() {
        Err(Failure::HeaderMisMatch { bytes: b.subrange(0, 8) })
    } else {
        parse_chunks(b.skip(8))
    }
}

/// Every chunk is sound.
pub open spec fn all_sound(cs: Seq<ChunkView>) -> bool {
    forall|i: int| 0 <= i < cs.len() ==> sound(#[trigger] cs[i])
}

/// Every payload's length fits the length field of a record.
pub open spec fn all_fit(cs: Seq<ChunkView>) -> bool {
    forall|i: int| 0 <= i < cs.len() ==> (#[trigger] cs[i]).data.len() < 0x1_0000_0000
}

/// Some chunk has type `t`.
pub open spec fn has_type(cs: Seq<ChunkView>, t: Seq<u8>) -> bool {
    exists|i: int| 0 <= i < cs.len() && (#[trigger] cs[i]).chunk_type == t
}

/// The chunk at `i` is the first of type `t`.
pub open spec fn is_first_at(cs: Seq<ChunkView>, t: Seq<u8>, i: int) -> bool {
    &&& 0 <= i < cs.len()
    &&& cs[i].chunk_type == t
    &&& forall|j: int| 0 <= j < i ==> (#[trigger] cs[j]).chunk_type != t
}

/// The position of the first chunk of type `t`, where there is one.
pub open spec fn first_index(cs: Seq<ChunkView>, t: Seq<u8>) -> int {
    choose|i: int| is_first_at(cs, t, i)
}

/// The chunks after an upsert of payload `d` under type `t`: the first chunk
/// of that type gets the payload where it stands; without one, a new chunk
/// goes to the end.
pub open spec fn upserted(cs: Seq<ChunkView>, t: Seq<u8>, d: Seq<u8>) -> Seq<ChunkView> {
    if has_type(cs, t) {
        cs.update(first_index(cs, t), chunk_of(t, d))
    } else {
        cs.push(chunk_of(t, d))
    }
}

/// The chunks after the first of type `t` is removed, or the failure where
/// there is none.
pub open spec fn removed(cs: Seq<ChunkView>, t: Seq<u8>) -> Result<Seq<ChunkView>, Failure> {
    if has_type(cs, t) {
        Ok(cs.remove(first_index(cs, t)))
    } else {
        Err(Failure::ChunkNotFound { chunk_type: t })
    }
}

/// The model of a document parse's outcome.
pub open spec fn png_result(r: Result<Png, Error>) -> Result<Seq<ChunkView>, Failure> {
    match r {
        Ok(p) => Ok(p@),
        Err(e) => Err(e@),
    }
}

/// The signature, as bytes.
pub fn standard_header() -> (res: [u8; 8])
    ensures
        res@ == signature(),
{
    let res: [u8; 8] = [137, 80, 78, 71, 13, 10, 26, 10];
    assert(res@ =~= signature());
    res
}

/// Whether a buffer of at least eight bytes starts with the signature.
pub fn has_signature(bytes: &[u8]) -> (res: bool)
    requires
        bytes@.len() >= 8,
    ensures
        res == (bytes@.subrange(0, 8) == signature()),
{
    let header = standard_header();
    let mut i: usize = 0;
    while i < 8
        invariant
            0 <= i <= 8 <= bytes@.len(),
            header@ == signature(),
            forall|j: int| 0 <= j < i ==> bytes@[j] == #[trigger] header@[j],
        decreases 8 - i,
    {
        if bytes[i] != header[i] {
            assert(bytes@.subrange(0, 8)[i as int] != signature()[i as int]);
            return false;
        }
        i += 1;
    }
    assert(bytes@.subrange(0, 8) =~= signature());
    true
}

#[derive(Debug)]
pub struct Png {
    header: [u8; 8],
    chunks: Vec<Chunk>,
}

impl View for Png {
    type V = Seq<ChunkView>;

    closed spec fn view(&self) -> Seq<ChunkView> {
        Seq::new(self.chunks@.len(), |i: int| self.chunks@[i]@)
    }
}

impl Png {
    /// The first eight bytes that the document is written with.
    pub closed spec fn header_view(&self) -> Seq<u8> {
        self.header@
    }

    /// The invariant of the type: the signature, and sound chunks.
    pub open spec fn wf(&self) -> bool {
        self.header_view() == signature() && all_sound(self@)
    }

    /// A document without chunks.
    pub fn new() -> (res: Png)
        ensures
            res@ == Seq::<ChunkView>::empty(),
            res.wf(),
    {
        let res = Png { header: standard_header(), chunks: Vec::new() };
        assert(res@ =~= Seq::<ChunkView>::empty());
        res
    }

    /// Parses a whole buffer: the signature, then records to the end. Any
    /// failure refuses the whole buffer.
    pub fn try_from(bytes: &[u8]) -> (res: Result<Png, Error>)
        ensures
            png_result(res) == parse_document(bytes@),
            res matches Ok(p) ==> p.wf(),
    {
        if bytes.len() < 8 {
            return Err(Error::HeaderLenMisMatch { actual: bytes.len() });
        }
        if !has_signature(bytes) {
            return Err(Error::HeaderMisMatch { bytes: copy_range(bytes, 0, 8) });
        }
        let mut png = Png::new();
        let mut pos: usize = 8;
        while pos < bytes.len()
            invariant
                8 <= pos <= bytes@.len(),
                bytes@.subrange(0, 8) == signature(),
                png.wf(),
                parse_chunks(bytes@.skip(8)) == prepend(png@, parse_chunks(bytes@.skip(pos as int))),
            decreases bytes@.len() - pos,
        {
            let ghost before = png@;
            let ghost b = bytes@.skip(pos as int);
            assert(b.len() > 0);
            let chunk = match record_at(bytes, pos) {
                Ok(c) => c,
                Err(e) => {
                    assert(parse_chunks(b) == Err::<Seq<ChunkView>, Failure>(e@));
                    return Err(e);
                },
            };
            let step: usize = 12 + chunk.length();
            proof {
                assert(parse_record(b) == Ok::<ChunkView, Failure>(chunk@));
                assert(b.skip(step as int) =~= bytes@.skip(pos + step));
                let r = parse_chunks(bytes@.skip(pos + step));
                if let Ok(rest) = r {
                    assert(before + (seq![chunk@] + rest) =~= before.push(chunk@) + rest);
                }
            }
            png.append_chunk(chunk);
            pos += step;
        }
        assert(bytes@.skip(pos as int).len() == 0);
        assert(png@ + Seq::<ChunkView>::empty() =~= png@);
        Ok(png)
    }

    /// The chunks in file order.
    pub fn chunks(&self) -> (res: &[Chunk])
        ensures
            res@.len() == self@.len(),
            forall|i: int| 0 <= i < res@.len() ==> (#[trigger] res@[i])@ == self@[i],
    {
        self.chunks.as_slice()
    }

    /// The signature that the document is written with.
    pub fn header(&self) -> (res: &[u8; 8])
        ensures
            res@ == self.header_view(),
    {
        &self.header
    }

    /// The chunk at a position, if the document has that many.
    pub fn chunk_at(&self, index: usize) -> (res: Option<&Chunk>)
        ensures
            index < self@.len() ==> (res matches Some(c) && c@ == self@[index as int]),
            index >= self@.len() ==> res is None,
    {
        if index < self.chunks.len() {
            Some(&self.chunks[index])
        } else {
            None
        }
    }

    /// The position of the first chunk of a type.
    pub fn position(&self, chunk_type: &ChunkType) -> (res: Option<usize>)
        ensures
            match res {
                Some(i) => is_first_at(self@, chunk_type@, i as int),
                None => !has_type(self@, chunk_type@),
            },
    {
        let mut i: usize = 0;
        while i < self.chunks.len()
            invariant
                0 <= i <= self.chunks@.len(),
                forall|j: int| 0 <= j < i ==> (#[trigger] self@[j]).chunk_type != chunk_type@,
            decreases self.chunks@.len() - i,
        {
            if self.chunks[i].chunk_type().same_as(chunk_type) {
                return Some(i);
            }
            i += 1;
        }
        None
    }

    /// The first chunk whose type is the given text, if there is one. Text
    /// that is no type code names no chunk.
    pub fn chunk_by_type(&self, chunk_type: &str) -> (res: Option<&Chunk>)
        ensures
            match type_code_of_text(chunk_type@) {
                Ok(t) => match res {
                    Some(c) => is_first_at(self@, t, first_index(self@, t)) && c@ == self@[first_index(
                        self@,
                        t,
                    )],
                    None => !has_type(self@, t),
                },
                Err(_) => res is None,
            },
    {
        let code = match ChunkType::from_str(chunk_type) {
            Ok(t) => t,
            Err(_) => { return None; },
        };
        match self.position(&code) {
            Some(i) => {
                proof {
                    lemma_first_index(self@, code@, i as int);
                }
                Some(&self.chunks[i])
            },
            None => None,
        }
    }

    /// Puts a chunk at the end of the document.
    pub fn append_chunk(&mut self, chunk: Chunk)
        requires
            old(self).wf(),
            chunk.wf(),
        ensures
            final(self)@ == old(self)@.push(chunk@),
            final(self).wf(),
    {
        self.chunks.push(chunk);
        assert(self@ =~= old(self)@.push(chunk@));
    }

    /// Gives the first chunk of the type a new payload where it stands, or
    /// appends a new chunk when the document has none of that type. Text
    /// that is no type code is refused and the document stays as it was.
    pub fn upinsert(&mut self, chunk_type: &str, data: Vec<u8>) -> (res: Result<(), Error>)
        requires
            old(self).wf(),
        ensures
            final(self).wf(),
            match type_code_of_text(chunk_type@) {
                Ok(t) => res is Ok && final(self)@ == upserted(old(self)@, t, data@),
                Err(f) => (res matches Err(e) && e@ == f) && final(self)@ == old(self)@,
            },
    {
        let code = match ChunkType::from_str(chunk_type) {
            Ok(t) => t,
            Err(e) => { return Err(e); },
        };
        match self.position(&code) {
            Some(i) => {
                proof {
                    lemma_first_index(self@, code@, i as int);
                }
                self.chunks[i].update_data(data);
                assert(self@ =~= old(self)@.update(i as int, chunk_of(code@, data@)));
            },
            None => {
                let chunk = Chunk::new(code, data);
                self.append_chunk(chunk);
            },
        }
        Ok(())
    }

    /// Takes the first chunk of the type out of the document and returns
    /// it; the later chunks move down by one. Text that is no type code, or
    /// a type that the document lacks, is refused and the document stays as
    /// it was.
    pub fn remove_chunk(&mut self, chunk_type: &str) -> (res: Result<Chunk, Error>)
        requires
            old(self).wf(),
        ensures
            final(self).wf(),
            match type_code_of_text(chunk_type@) {
                Ok(t) => match removed(old(self)@, t) {
                    Ok(cs) => (res matches Ok(c) && c@ == old(self)@[first_index(old(self)@, t)]
                        && c.wf()) && final(self)@ == cs,
                    Err(f) => (res matches Err(e) && e@ == f) && final(self)@ == old(self)@,
                },
                Err(f) => (res matches Err(e) && e@ == f) && final(self)@ == old(self)@,
            },
    {
        let code = match ChunkType::from_str(chunk_type) {
            Ok(t) => t,
            Err(e) => { return Err(e); },
        };
        match self.position(&code) {
            Some(i) => {
                proof {
                    lemma_first_index(self@, code@, i as int);
                }
                let chunk = self.chunks.remove(i);
                assert(self@ =~= old(self)@.remove(i as int));
                assert(chunk@ == old(self)@[i as int]);
                Ok(chunk)
            },
            None => Err(Error::ChunkNotFound { chunk_type: code.to_array() }),
        }
    }

    /// The bytes of the document: the signature, then each chunk's record.
    pub fn as_bytes(&self) -> (res: Vec<u8>)
        requires
            self.wf(),
        ensures
            res@ == document_of(self@),
    {
        let mut out: Vec<u8> = Vec::new();
        out.extend_from_slice(self.header.as_slice());
        assert(records_of(self@.take(0)) =~= Seq::<u8>::empty());
        assert(out@ =~= signature() + records_of(self@.take(0)));
        let mut i: usize = 0;
        while i < self.chunks.len()
            invariant
                0 <= i <= self.chunks@.len(),
                self@.len() == self.chunks@.len(),
                out@ == signature() + records_of(self@.take(i as int)),
            decreases self.chunks@.len() - i,
        {
            let record = self.chunks[i].as_bytes();
            out.extend_from_slice(record.as_slice());
            proof {
                lemma_records_push(self@.take(i as int), self@[i as int]);
                assert(self@.take(i as int).push(self@[i as int]) =~= self@.take(i + 1));
                assert(out@ =~= signature() + records_of(self@.take(i + 1)));
            }
            i += 1;
        }
        assert(self@.take(i as int) =~= self@);
        out
    }
}

/// A first chunk of a type is the one that `first_index` names.
pub proof fn lemma_first_index(cs: Seq<ChunkView>, t: Seq<u8>, i: int)
    requires
        is_first_at(cs, t, i),
    ensures
        has_type(cs, t),
        first_index(cs, t) == i,
{
    let j = first_index(cs, t);
    assert(is_first_at(cs, t, j));
    if j < i {
        assert(cs[j].chunk_type != t);
    }
    if i < j {
        assert(cs[i].chunk_type != t);
    }
}

/// The records of a sequence with one more chunk at its end.
pub proof fn lemma_records_push(cs: Seq<ChunkView>, c: ChunkView)
    ensures
        records_of(cs.push(c)) == records_of(cs) + record_of(c),
    decreases cs.len(),
{
    if cs.len() == 0 {
        assert(cs.push(c).drop_first() =~= Seq::<ChunkView>::empty());
        assert(records_of(cs.push(c).drop_first()) =~= Seq::<u8>::empty());
        assert(cs.push(c)[0] == c);
        assert(records_of(cs.push(c)) =~= record_of(c));
        assert(records_of(cs) + record_of(c) =~= record_of(c));
    } else {
        assert(cs.push(c).drop_first() =~= cs.drop_first().push(c));
        lemma_records_push(cs.drop_first(), c);
        assert(records_of(cs.push(c)) =~= records_of(cs) + record_of(c));
    }
}

/// Records of sound chunks parse back to those chunks, in order.
pub proof fn lemma_records_round_trip(cs: Seq<ChunkView>)
    requires
        all_sound(cs),
        all_fit(cs),
    ensures
        parse_chunks(records_of(cs)) == Ok::<Seq<ChunkView>, Failure>(cs),
    decreases cs.len(),
{
    if cs.len() == 0 {
        assert(records_of(cs).len() == 0);
        assert(cs =~= Seq::<ChunkView>::empty());
    } else {
        let c = cs[0];
        let rest = cs.drop_first();
        let b = records_of(cs);
        assert(sound(c));
        assert(c == chunk_of(c.chunk_type, c.data));
        lemma_record_round_trip(c.chunk_type, c.data, records_of(rest));
        assert(b.skip(12 + c.data.len() as int) =~= records_of(rest));
        assert forall|i: int| 0 <= i < rest.len() implies sound(#[trigger] rest[i]) && rest[i].data.len()
            < 0x1_0000_0000 by {
            assert(rest[i] == cs[i + 1]);
        }
        lemma_records_round_trip(rest);
        assert(seq![c] + rest =~= cs);
    }
}

/// A document of sound chunks parses back to those chunks, in order.
pub proof fn lemma_document_round_trip(cs: Seq<ChunkView>)
    requires
        all_sound(cs),
        all_fit(cs),
    ensures
        parse_document(document_of(cs)) == Ok::<Seq<ChunkView>, Failure>(cs),
{
    let b = document_of(cs);
    assert(b.subrange(0, 8) =~= signature());
    assert(b.skip(8) =~= records_of(cs));
    lemma_records_round_trip(cs);
}

/// An upsert under a type that the document holds replaces the first chunk
/// of that type where it stands: the length and every other chunk stay.
pub proof fn lemma_upsert_in_place(cs: Seq<ChunkView>, t: Seq<u8>, d: Seq<u8>, i: int)
    requires
        is_first_at(cs, t, i),
    ensures
        upserted(cs, t, d).len() == cs.len(),
        upserted(cs, t, d)[i] == chunk_of(t, d),
        forall|j: int| 0 <= j < cs.len() && j != i ==> upserted(cs, t, d)[j] == cs[j],
{
    lemma_first_index(cs, t, i);
}

/// An upsert under a type that the document lacks appends the new chunk and
/// keeps the others in order.
pub proof fn lemma_upsert_appends(cs: Seq<ChunkView>, t: Seq<u8>, d: Seq<u8>)
    requires
        !has_type(cs, t),
    ensures
        upserted(cs, t, d).len() == cs.len() + 1,
        upserted(cs, t, d)[cs.len() as int] == chunk_of(t, d),
        forall|j: int| 0 <= j < cs.len() ==> upserted(cs, t, d)[j] == cs[j],
{
}

/// Removing the only chunk of a type takes one chunk out, moves the later
/// ones down by one, and leaves a document in which a second removal of the
/// type finds nothing.
pub proof fn lemma_remove_then_not_found(cs: Seq<ChunkView>, t: Seq<u8>, i: int)
    requires
        is_first_at(cs, t, i),
        forall|j: int| i < j < cs.len() ==> (#[trigger] cs[j]).chunk_type != t,
    ensures
        removed(cs, t) == Ok::<Seq<ChunkView>, Failure>(cs.remove(i)),
        cs.remove(i).len() == cs.len() - 1,
        forall|j: int| 0 <= j < i ==> cs.remove(i)[j] == cs[j],
        forall|j: int| i <= j < cs.len() - 1 ==> cs.remove(i)[j] == cs[j + 1],
        removed(cs.remove(i), t) == Err::<Seq<ChunkView>, Failure>(
            Failure::ChunkNotFound { chunk_type: t },
        ),
{
    lemma_first_index(cs, t, i);
    let after = cs.remove(i);
    if has_type(after, t) {
        let k = choose|k: int| 0 <= k < after.len() && (#[trigger] after[k]).chunk_type == t;
        if k < i {
            assert(after[k] == cs[k]);
        } else {
            assert(after[k] == cs[k + 1]);
        }
        assert(false);
    }
}

/// A buffer shorter than the signature is refused for its length; a longer
/// one that starts otherwise is refused for its first eight bytes.
pub proof fn lemma_signature_guards_document(b: Seq<u8>)
    ensures
        b.len() < 8 ==> parse_document(b) == Err::<Seq<ChunkView>, Failure>(
            Failure::HeaderLenMisMatch { actual: b.len() },
        ),
        b.len() >= 8 && b.subrange(0, 8) != signature() ==> parse_document(b) == Err::<
            Seq<ChunkView>,
            Failure,
        >(Failure::HeaderMisMatch { bytes: b.subrange(0, 8) }),
{
}

} // verus!
