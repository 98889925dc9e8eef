//! A whole PNG stream: the eight signature bytes and the chunks behind them,
//! in the order in which they stand in the file.

use crate::chunk::{
    chunk_text, lemma_parse_wire, lemma_wire_len, parsed_chunk, wire_bytes, Chunk, ChunkError,
    ChunkView,
};
use crate::chunk_type::is_code;
use crate::text::{hex_list, push_hex_list};
use crate::utils::{get_slice, RangeLimit};
use vstd::prelude::*;
use vstd::slice::slice_subrange;
use vstd::std_specs::convert::TryFromSpecImpl;
use vstd::string::*;

verus! {

/// The PNG signature as a sequence.
pub open spec fn png_signature() -> Seq<u8> {
    seq![0x89u8, 0x50u8, 0x4eu8, 0x47u8, 0x0du8, 0x0au8, 0x1au8, 0x0au8]
}

/// Why bytes could not be read as a PNG stream, or a chunk not be removed.
#[derive(Debug, PartialEq, Eq)]
pub enum PngError {
    /// The stream does not begin with the PNG signature.
    InvalidSignature,
    /// A chunk of the stream was refused.
    Chunk(ChunkError),
    /// No chunk has the type that was asked for.
    ChunkNotFound(String),
}

/// True when every chunk of the sequence is well formed.
pub open spec fn all_wf(chunks: Seq<ChunkView>) -> bool {
    forall|i: int| 0 <= i < chunks.len() ==> (#[trigger] chunks[i]).wf()
}

/// The wire forms of `chunks`, one after the other.
pub open spec fn chunks_wire(chunks: Seq<ChunkView>) -> Seq<u8>
    decreases chunks.len(),
{
    if chunks.len() == 0 {
        Seq::empty()
    } else {
        chunks_wire(chunks.drop_last()) + wire_bytes(chunks.last())
    }
}

/// The stream that holds `chunks`: the signature, then each chunk's wire form.
pub open spec fn png_bytes(chunks: Seq<ChunkView>) -> Seq<u8> {
    png_signature() + chunks_wire(chunks)
}

/// The dumps of `chunks`, each on a new line.
pub open spec fn chunks_text(chunks: Seq<ChunkView>) -> Seq<char>
    decreases chunks.len(),
{
    if chunks.len() == 0 {
        Seq::empty()
    } else {
        chunks_text(chunks.drop_last()) + "\n"@ + chunk_text(chunks.last())
    }
}

/// The dump of a stream: the signature in hexadecimal, then the chunks.
pub open spec fn png_text(chunks: Seq<ChunkView>) -> Seq<char> {
    "PNG signature: "@ + hex_list(png_signature()) + chunks_text(chunks)
}

/// `first` put in front of what reading the rest gave.
pub open spec fn prepend(first: Seq<ChunkView>, rest: Result<Seq<ChunkView>, ChunkError>) -> Result<
    Seq<ChunkView>,
    ChunkError,
> {
    match rest {
        Ok(chunks) => Ok(first + chunks),
        Err(e) => Err(e),
    }
}

/// What reading chunk after chunk gives until `bytes` is used up: all the
/// chunks, or the first refusal.
pub open spec fn parsed_chunks(bytes: Seq<u8>) -> Result<Seq<ChunkView>, ChunkError>
    decreases bytes.len(),
{
    if bytes.len() == 0 {
        Ok(Seq::empty())
    } else {
        match parsed_chunk(bytes) {
            Err(e) => Err(e),
            Ok(c) => prepend(seq![c], parsed_chunks(bytes.skip(c.wire_len() as int))),
        }
    }
}

/// What reading `bytes` as a PNG stream gives.
pub open spec fn parsed_png(bytes: Seq<u8>) -> Result<Seq<ChunkView>, PngError> {
    if bytes.len() < 8 || bytes.subrange(0, 8) != png_signature() {
        Err(PngError::InvalidSignature)
    } else {
        match parsed_chunks(bytes.skip(8)) {
            Ok(chunks) => Ok(chunks),
            Err(e) => Err(PngError::Chunk(e)),
        }
    }
}

/// The position of the first chunk whose type code is `name`, or the number
/// of chunks when there is none.
pub open spec fn first_of_type(chunks: Seq<ChunkView>, name: Seq<u8>) -> int
    decreases chunks.len(),
{
    if chunks.len() == 0 {
        0
    } else if chunks[0].chunk_type == name {
        0
    } else {
        1 + first_of_type(chunks.drop_first(), name)
    }
}

/// The first chunk whose type code is `name`.
pub open spec fn found_chunk(chunks: Seq<ChunkView>, name: Seq<u8>) -> Option<ChunkView> {
    let at = first_of_type(chunks, name);
    if at < chunks.len() {
        Some(chunks[at])
    } else {
        None
    }
}

/// `chunks` without the first chunk whose type code is `name`.
pub open spec fn without_first(chunks: Seq<ChunkView>, name: Seq<u8>) -> Option<Seq<ChunkView>> {
    let at = first_of_type(chunks, name);
    if at < chunks.len() {
        Some(chunks.remove(at))
    } else {
        None
    }
}

/// `first_of_type` points at a chunk of that type, and no chunk before it has
/// the type.
pub proof fn lemma_first_of_type(chunks: Seq<ChunkView>, name: Seq<u8>)
    ensures
        0 <= first_of_type(chunks, name) <= chunks.len(),
        first_of_type(chunks, name) < chunks.len() ==> chunks[first_of_type(
            chunks,
            name,
        )].chunk_type == name,
        forall|j: int|
            0 <= j < first_of_type(chunks, name) ==> (#[trigger] chunks[j]).chunk_type != name,
    decreases chunks.len(),
{
    if chunks.len() > 0 && chunks[0].chunk_type != name {
        let rest = chunks.drop_first();
        lemma_first_of_type(rest, name);
        assert forall|j: int| 0 <= j < first_of_type(chunks, name) implies (
        #[trigger] chunks[j]).chunk_type != name by {
            if j > 0 {
                assert(chunks[j] == rest[j - 1]);
            }
        }
    }
}

/// A position that holds the type, with no earlier chunk of the type, is the
/// one that `first_of_type` gives.
pub proof fn lemma_first_of_type_is(chunks: Seq<ChunkView>, name: Seq<u8>, at: int)
    requires
        0 <= at <= chunks.len(),
        at < chunks.len() ==> chunks[at].chunk_type == name,
        forall|j: int| 0 <= j < at ==> (#[trigger] chunks[j]).chunk_type != name,
    ensures
        first_of_type(chunks, name) == at,
{
    lemma_first_of_type(chunks, name);
    let f = first_of_type(chunks, name);
    if f < at {
        assert(chunks[f].chunk_type != name);
    } else if at < f {
        assert(chunks[at].chunk_type != name);
    }
}

/// Writing one more chunk appends its wire form.
pub proof fn lemma_chunks_wire_push(chunks: Seq<ChunkView>, c: ChunkView)
    ensures
        chunks_wire(chunks.push(c)) == chunks_wire(chunks) + wire_bytes(c),
{
    assert(chunks.push(c).drop_last() =~= chunks);
}

/// A PNG stream in memory: its chunks in file order.
#[derive(Debug)]
pub struct Png {
    chunks: Vec<Chunk>,
}

impl View for Png {
    type V = Seq<ChunkView>;

    closed spec fn view(&self) -> Seq<ChunkView> {
        self.chunks@.map_values(|c: Chunk| c@)
    }
}

fn same_bytes(a: &[u8], b: &[u8]) -> (r: bool)
    ensures
        r == (a@ == b@),
{
    if a.len() != b.len() {
        return false;
    }
    let mut index: usize = 0;
    while index < a.len()
        invariant
            index <= a@.len(),
            a@.len() == b@.len(),
            forall|j: int| 0 <= j < index ==> a@[j] == b@[j],
        decreases a@.len() - index,
    {
        if a[index] != b[index] {
            return false;
        }
        index += 1;
    }
    assert(a@ =~= b@);
    true
}

impl Png {
    /// The eight bytes with which every PNG stream begins.
    pub const SIGNATURE: [u8; 8] = [0x89, 0x50, 0x4e, 0x47, 0x0d, 0x0a, 0x1a, 0x0a];

    /// Every chunk of a stream is well formed.
    #[verifier::type_invariant]
    pub open spec fn wf(&self) -> bool {
        all_wf(self@)
    }

    /// A stream without chunks.
    pub fn new() -> (r: Png)
        ensures
            r.wf(),
            r@ == Seq::<ChunkView>::empty(),
    {
        let r = Png { chunks: Vec::new() };
        assert(r@ =~= Seq::<ChunkView>::empty());
        r
    }

    /// The signature bytes.
    pub fn signature(&self) -> (r: [u8; 8])
        ensures
            r@ == png_signature(),
    {
        let r: [u8; 8] = Png::SIGNATURE;
        assert(r@ =~= png_signature());
        r
    }

    /// The chunks, in stored order.
    pub fn chunks(&self) -> (r: &[Chunk])
        ensures
            r@.map_values(|c: Chunk| c@) == self@,
    {
        self.chunks.as_slice()
    }

    /// Puts `chunk` behind the chunks that are already there.
    pub fn append_chunk(&mut self, chunk: Chunk)
        ensures
            final(self).wf(),
            final(self)@ == old(self)@.push(chunk@),
    {
        proof {
            use_type_invariant(&*self);
            use_type_invariant(&chunk);
        }
        // The list is taken out while it changes and put back whole, so that
        // the stream is well formed at every step.
        let mut chunks: Vec<Chunk> = Vec::new();
        core::mem::swap(&mut self.chunks, &mut chunks);
        chunks.push(chunk);
        proof {
            let views = chunks@.map_values(|c: Chunk| c@);
            assert(views =~= old(self)@.push(chunk@));
            assert forall|i: int| 0 <= i < views.len() implies (#[trigger] views[i]).wf() by {
                if i < old(self)@.len() {
                    assert(views[i] == old(self)@[i]);
                }
            }
        }
        self.chunks = chunks;
    }

    /// The first chunk, in stored order, whose type code is spelled `type_str`.
    pub fn chunk_by_type(&self, type_str: &str) -> (r: Option<&Chunk>)
        ensures
            match r {
                Some(c) => c.wf() && found_chunk(self@, type_str.spec_bytes()) == Some(c@),
                None => found_chunk(self@, type_str.spec_bytes()) == None::<ChunkView>,
            },
    {
        let at: usize = self.position_by_type(type_str);
        if at < self.chunks.len() {
            let c: &Chunk = &self.chunks[at];
            proof {
                use_type_invariant(c);
            }
            Some(c)
        } else {
            None
        }
    }

    /// Takes out the first chunk, in stored order, whose type code is spelled
    /// `type_str`. When there is none the stream stays as it is and the error
    /// names the type that was asked for.
    pub fn remove_first_chunk(&mut self, type_str: &str) -> (r: Result<(), PngError>)
        ensures
            final(self).wf(),
            match r {
                Ok(_) => without_first(old(self)@, type_str.spec_bytes()) == Some(final(self)@),
                Err(e) => {
                    &&& without_first(old(self)@, type_str.spec_bytes()) == None::<
                        Seq<ChunkView>,
                    >
                    &&& final(self)@ == old(self)@
                    &&& e matches PngError::ChunkNotFound(name)
                    &&& name@ == type_str@
                },
            },
    {
        proof {
            use_type_invariant(&*self);
        }
        let at: usize = self.position_by_type(type_str);
        if at < self.chunks.len() {
            let mut chunks: Vec<Chunk> = Vec::new();
            core::mem::swap(&mut self.chunks, &mut chunks);
            let _ = chunks.remove(at);
            proof {
                let views = chunks@.map_values(|c: Chunk| c@);
                assert(views =~= old(self)@.remove(at as int));
                assert forall|i: int| 0 <= i < views.len() implies (#[trigger] views[i]).wf() by {
                    if i < at {
                        assert(views[i] == old(self)@[i]);
                    } else {
                        assert(views[i] == old(self)@[i + 1]);
                    }
                }
            }
            self.chunks = chunks;
            Ok(())
        } else {
            Err(PngError::ChunkNotFound(type_str.to_owned()))
        }
    }

    fn position_by_type(&self, type_str: &str) -> (at: usize)
        ensures
            at == first_of_type(self@, type_str.spec_bytes()),
            at <= self.chunks@.len(),
    {
        let name: &[u8] = type_str.as_bytes();
        let mut at: usize = 0;
        while at < self.chunks.len()
            invariant
                at <= self.chunks@.len(),
                name@ == type_str.spec_bytes(),
                forall|j: int| 0 <= j < at ==> (#[trigger] self@[j]).chunk_type != name@,
            decreases self.chunks@.len() - at,
        {
            let code: [u8; 4] = self.chunks[at].chunk_type().bytes();
            if same_bytes(code.as_slice(), name) {
                proof {
                    lemma_first_of_type_is(self@, name@, at as int);
                }
                return at;
            }
            at += 1;
        }
        proof {
            lemma_first_of_type_is(self@, name@, at as int);
        }
        at
    }

    /// The stream's bytes: the signature, then every chunk in stored order.
    pub fn as_bytes(&self) -> (r: Vec<u8>)
        ensures
            r@ == png_bytes(self@),
    {
        let mut bytes: Vec<u8> = Vec::new();
        let header: [u8; 8] = self.signature();
        bytes.extend_from_slice(header.as_slice());
        let mut index: usize = 0;
        while index < self.chunks.len()
            invariant
                index <= self.chunks@.len(),
                bytes@ == png_signature() + chunks_wire(self@.take(index as int)),
            decreases self.chunks@.len() - index,
        {
            let piece: Vec<u8> = self.chunks[index].as_bytes();
            proof {
                let before = self@.take(index as int);
                lemma_chunks_wire_push(before, self@[index as int]);
                assert(self@.take(index + 1) =~= before.push(self@[index as int]));
            }
            bytes.extend_from_slice(piece.as_slice());
            index += 1;
        }
        assert(self@.take(index as int) =~= self@);
        bytes
    }

    /// A dump of the stream for people to read: the signature, then every
    /// chunk's own dump on a new line.
    pub fn to_string(&self) -> (r: String)
        ensures
            r@ == png_text(self@),
    {
        let mut out: String = String::new();
        out.append("PNG signature: ");
        let header: [u8; 8] = self.signature();
        push_hex_list(&mut out, header.as_slice());
        let mut index: usize = 0;
        assert(self@.take(0).len() == 0);
        assert(out@ =~= "PNG signature: "@ + hex_list(png_signature()) + chunks_text(
            self@.take(0),
        ));
        while index < self.chunks.len()
            invariant
                index <= self.chunks@.len(),
                out@ == "PNG signature: "@ + hex_list(png_signature()) + chunks_text(
                    self@.take(index as int),
                ),
            decreases self.chunks@.len() - index,
        {
            proof {
                let next = self@.take(index + 1);
                assert(next.drop_last() =~= self@.take(index as int));
                assert(next.last() == self@[index as int]);
            }
            out.append("\n");
            let dump: String = self.chunks[index].to_string();
            out.append(dump.as_str());
            assert(out@ =~= "PNG signature: "@ + hex_list(png_signature()) + chunks_text(
                self@.take(index + 1),
            ));
            index += 1;
        }
        assert(self@.take(index as int) =~= self@);
        out
    }

    /// Reads a whole PNG stream: the signature, then chunk after chunk until
    /// the bytes are used up. The first chunk that is refused ends the
    /// reading with its error.
    pub fn parse(bytes: &[u8]) -> (r: Result<Png, PngError>)
        ensures
            match r {
                Ok(p) => p.wf() && parsed_png(bytes@) == Ok::<Seq<ChunkView>, PngError>(p@),
                Err(e) => parsed_png(bytes@) == Err::<Seq<ChunkView>, PngError>(e),
            },
    {
        let total: usize = bytes.len();
        let expected: [u8; 8] = Png::SIGNATURE;
        assert(expected@ =~= png_signature());
        let header: &[u8] = match get_slice(
            bytes,
            RangeLimit::Included(0),
            RangeLimit::Excluded(8),
        ) {
            Ok(h) => h,
            Err(_) => {
                return Err(PngError::InvalidSignature);
            },
        };
        if !same_bytes(header, expected.as_slice()) {
            return Err(PngError::InvalidSignature);
        }
        let mut chunks: Vec<Chunk> = Vec::new();
        let mut cursor: usize = 8;
        while cursor < total
            invariant
                8 <= cursor <= total,
                total == bytes@.len(),
                bytes@.subrange(0, 8) == png_signature(),
                forall|i: int| 0 <= i < chunks@.len() ==> (#[trigger] chunks@[i])@.wf(),
                parsed_chunks(bytes@.skip(8)) == prepend(
                    chunks@.map_values(|c: Chunk| c@),
                    parsed_chunks(bytes@.skip(cursor as int)),
                ),
            decreases total - cursor,
        {
            let rest: &[u8] = slice_subrange(bytes, cursor, total);
            assert(rest@ =~= bytes@.skip(cursor as int));
            match Chunk::parse(rest) {
                Ok(chunk) => {
                    let size: usize = 12 + chunk.data().len();
                    proof {
                        let so_far = chunks@.map_values(|c: Chunk| c@);
                        assert(rest@.skip(size as int) =~= bytes@.skip(cursor + size));
                        assert(chunks@.push(chunk).map_values(|c: Chunk| c@) =~= so_far + seq![
                            chunk@,
                        ]);
                        let tail = parsed_chunks(bytes@.skip(cursor + size));
                        if let Ok(more) = tail {
                            assert(so_far + (seq![chunk@] + more) =~= (so_far + seq![chunk@])
                                + more);
                        }
                    }
                    cursor = cursor + size;
                    chunks.push(chunk);
                },
                Err(e) => {
                    assert(parsed_chunks(rest@) == Err::<Seq<ChunkView>, ChunkError>(e));
                    return Err(PngError::Chunk(e));
                },
            }
        }
        proof {
            assert(chunks@.map_values(|c: Chunk| c@) + Seq::<ChunkView>::empty()
                =~= chunks@.map_values(|c: Chunk| c@));
        }
        Ok(Png { chunks })
    }
}

impl<'a> TryFrom<&'a [u8]> for Png {
    type Error = PngError;

    /// Same as `Png::parse`.
    fn try_from(bytes: &'a [u8]) -> (r: Result<Png, PngError>)
        ensures
            match r {
                Ok(p) => p.wf() && parsed_png(bytes@) == Ok::<Seq<ChunkView>, PngError>(p@),
                Err(e) => parsed_png(bytes@) == Err::<Seq<ChunkView>, PngError>(e),
            },
    {
        Png::parse(bytes)
    }
}

/// The contract of this conversion stands on `try_from` itself, over the
/// view; `try_from_spec` is left unused.
impl<'a> TryFromSpecImpl<&'a [u8]> for Png {
    open spec fn obeys_try_from_spec() -> bool {
        false
    }

    open spec fn try_from_spec(v: &'a [u8]) -> Result<Self, Self::Error> {
        arbitrary()
    }
}

/// Writing a chunk in front puts its wire form in front.
pub proof fn lemma_chunks_wire_front(c: ChunkView, rest: Seq<ChunkView>)
    ensures
        chunks_wire(seq![c] + rest) == wire_bytes(c) + chunks_wire(rest),
    decreases rest.len(),
{
    let all = seq![c] + rest;
    if rest.len() == 0 {
        assert(all.len() == 1 && all.last() == c);
        assert(all.drop_last().len() == 0);
        assert(chunks_wire(all.drop_last()) =~= Seq::<u8>::empty());
        assert(chunks_wire(rest) =~= Seq::<u8>::empty());
        assert(chunks_wire(all) =~= wire_bytes(c));
        assert(wire_bytes(c) + chunks_wire(rest) =~= wire_bytes(c));
    } else {
        lemma_chunks_wire_front(c, rest.drop_last());
        assert(all.drop_last() =~= seq![c] + rest.drop_last());
        assert(all.last() == rest.last());
        assert((wire_bytes(c) + chunks_wire(rest.drop_last())) + wire_bytes(rest.last())
            =~= wire_bytes(c) + (chunks_wire(rest.drop_last()) + wire_bytes(rest.last())));
    }
}

/// One step of reading: after a first chunk come the chunks that the bytes
/// behind it hold.
pub proof fn lemma_parsed_chunks_step(bytes: Seq<u8>, c: ChunkView)
    requires
        parsed_chunk(bytes) == Ok::<ChunkView, ChunkError>(c),
    ensures
        parsed_chunks(bytes) == prepend(seq![c], parsed_chunks(bytes.skip(c.wire_len() as int))),
{
}

/// Reading the wire forms of well-formed chunks gives those chunks back, in
/// the same order.
pub proof fn lemma_parse_chunks_wire(chunks: Seq<ChunkView>)
    requires
        all_wf(chunks),
    ensures
        parsed_chunks(chunks_wire(chunks)) == Ok::<Seq<ChunkView>, ChunkError>(chunks),
    decreases chunks.len(),
{
    if chunks.len() == 0 {
        assert(chunks =~= Seq::<ChunkView>::empty());
    } else {
        let c = chunks[0];
        let rest = chunks.drop_first();
        assert(chunks =~= seq![c] + rest);
        assert(c.wf());
        assert(all_wf(rest)) by {
            assert forall|i: int| 0 <= i < rest.len() implies (#[trigger] rest[i]).wf() by {
                assert(rest[i] == chunks[i + 1]);
            }
        }
        let bytes = chunks_wire(chunks);
        let behind = chunks_wire(rest);
        assert(bytes == wire_bytes(c) + behind) by {
            lemma_chunks_wire_front(c, rest);
        }
        assert(wire_bytes(c).len() == c.wire_len()) by {
            lemma_wire_len(c);
        }
        assert(bytes.skip(c.wire_len() as int) =~= behind);
        lemma_parse_wire(c, behind);
        lemma_parsed_chunks_step(bytes, c);
        lemma_parse_chunks_wire(rest);
        assert(seq![c] + rest =~= chunks);
    }
}

/// A stream survives the trip through its bytes: parsing what a stream of
/// well-formed chunks serializes to succeeds, finds the signature, and gives
/// the same chunks in the same order.
pub proof fn lemma_png_round_trip(chunks: Seq<ChunkView>)
    requires
        all_wf(chunks),
    ensures
        png_bytes(chunks).subrange(0, 8) == png_signature(),
        parsed_png(png_bytes(chunks)) == Ok::<Seq<ChunkView>, PngError>(chunks),
{
    let bytes = png_bytes(chunks);
    assert(bytes.subrange(0, 8) =~= png_signature());
    assert(bytes.skip(8) =~= chunks_wire(chunks));
    lemma_parse_chunks_wire(chunks);
}

/// After a chunk was appended, a chunk of its type is found; it is the
/// appended one when no earlier chunk has that type.
pub proof fn lemma_find_after_append(chunks: Seq<ChunkView>, c: ChunkView)
    ensures
        found_chunk(chunks.push(c), c.chunk_type) is Some,
        found_chunk(chunks.push(c), c.chunk_type).unwrap().chunk_type == c.chunk_type,
        found_chunk(chunks, c.chunk_type) is None ==> found_chunk(chunks.push(c), c.chunk_type)
            == Some(c),
        found_chunk(chunks, c.chunk_type) is Some ==> found_chunk(chunks.push(c), c.chunk_type)
            == found_chunk(chunks, c.chunk_type),
{
    let name = c.chunk_type;
    let all = chunks.push(c);
    lemma_first_of_type(chunks, name);
    let at = first_of_type(chunks, name);
    assert forall|j: int| 0 <= j < at implies (#[trigger] all[j]).chunk_type != name by {
        assert(all[j] == chunks[j]);
    }
    lemma_first_of_type_is(all, name, at);
}

/// Removing the type of a chunk that was appended to a stream without that
/// type gives the stream as it was before, in which the type is not found.
pub proof fn lemma_remove_after_append(chunks: Seq<ChunkView>, c: ChunkView)
    requires
        found_chunk(chunks, c.chunk_type) is None,
    ensures
        without_first(chunks.push(c), c.chunk_type) == Some(chunks),
        found_chunk(chunks, c.chunk_type) is None,
{
    let name = c.chunk_type;
    let all = chunks.push(c);
    lemma_first_of_type(chunks, name);
    assert forall|j: int| 0 <= j < chunks.len() implies (#[trigger] all[j]).chunk_type
        != name by {
        assert(all[j] == chunks[j]);
    }
    lemma_first_of_type_is(all, name, chunks.len() as int);
    assert(all.remove(chunks.len() as int) =~= chunks);
}

/// Removing takes out one chunk of the type and leaves every other chunk in
/// place; when the stream held the type once, it is not found afterwards.
pub proof fn lemma_remove_takes_first(chunks: Seq<ChunkView>, name: Seq<u8>)
    requires
        found_chunk(chunks, name) is Some,
    ensures
        without_first(chunks, name) is Some,
        without_first(chunks, name).unwrap().len() == chunks.len() - 1,
        (forall|j: int|
            first_of_type(chunks, name) < j < chunks.len() ==> (#[trigger] chunks[j]).chunk_type
                != name) ==> found_chunk(without_first(chunks, name).unwrap(), name) is None,
{
    lemma_first_of_type(chunks, name);
    let at = first_of_type(chunks, name);
    let left = chunks.remove(at);
    if forall|j: int| at < j < chunks.len() ==> (#[trigger] chunks[j]).chunk_type != name {
        assert forall|j: int| 0 <= j < left.len() implies (#[trigger] left[j]).chunk_type
            != name by {
            if j < at {
                assert(left[j] == chunks[j]);
            } else {
                assert(left[j] == chunks[j + 1]);
            }
        }
        lemma_first_of_type_is(left, name, left.len() as int);
    }
}

/// Text that is no four-letter code names no chunk of a well-formed stream.
pub proof fn lemma_no_chunk_without_code(chunks: Seq<ChunkView>, name: Seq<u8>)
    requires
        all_wf(chunks),
        !is_code(name),
    ensures
        found_chunk(chunks, name) is None,
        without_first(chunks, name) is None,
{
    assert forall|j: int| 0 <= j < chunks.len() implies (#[trigger] chunks[j]).chunk_type
        != name by {
        assert(chunks[j].wf());
    }
    lemma_absent_type(chunks, name);
}

/// A type that no chunk has is neither found nor removed.
pub proof fn lemma_absent_type(chunks: Seq<ChunkView>, name: Seq<u8>)
    requires
        forall|j: int| 0 <= j < chunks.len() ==> (#[trigger] chunks[j]).chunk_type != name,
    ensures
        found_chunk(chunks, name) is None,
        without_first(chunks, name) is None,
{
    lemma_first_of_type_is(chunks, name, chunks.len() as int);
}

} // verus!
