//! The chunk reader: splits a raw byte buffer into tagged records in buffer
//! order. A frame is an 8-byte header — a 4-byte tag and a little-endian
//! 32-bit payload size — followed by exactly that many payload bytes.
//! Tags are opaque here; unknown tags round-trip as raw payloads.

use crate::error::ParseError;
use vstd::bytes::{
    lemma_auto_spec_u32_to_from_le_bytes, spec_u32_from_le_bytes, spec_u32_to_le_bytes,
    u32_from_le_bytes,
};
use vstd::prelude::*;
use vstd::slice::{slice_subrange, slice_to_vec};

verus! {

/// The 8-byte header that opens every frame.
#[derive(Clone, Copy, Debug, PartialEq, Eq, Structural)]
pub struct ChunkHeader {
    /// Four tag bytes, packed little-endian into one word.
    pub tag: u32,
    /// Declared payload size in bytes.
    pub size: u32,
}

/// One record of the container: a tag and its raw payload bytes.
#[derive(Clone, Debug, PartialEq, Eq)]
pub struct RawChunk {
    pub tag: u32,
    pub payload: Vec<u8>,
}

/// Mathematical image of a `RawChunk`.
pub struct RawChunkView {
    pub tag: u32,
    pub payload: Seq<u8>,
}

impl View for RawChunk {
    type V = RawChunkView;

    open spec fn view(&self) -> RawChunkView {
        RawChunkView { tag: self.tag, payload: self.payload@ }
    }
}

/// A chunk whose payload size still fits the 32-bit size field.
pub open spec fn wf_chunk(c: RawChunkView) -> bool {
    c.payload.len() <= u32::MAX
}

/// The encoded frame of one chunk: tag, size, payload.
pub open spec fn frame_bytes(c: RawChunkView) -> Seq<u8> {
    spec_u32_to_le_bytes(c.tag) + spec_u32_to_le_bytes(c.payload.len() as u32) + c.payload
}

/// The encoded frames of a chunk sequence, in order.
pub open spec fn frames_bytes(cs: Seq<RawChunkView>) -> Seq<u8>
    decreases cs.len(),
{
    if cs.len() == 0 {
        Seq::empty()
    } else {
        frame_bytes(cs[0]) + frames_bytes(cs.drop_first())
    }
}

/// Splits a buffer into chunk records. `Truncated` if fewer than 8 bytes
/// remain where a header is expected, or a declared size exceeds the bytes
/// that remain.
pub open spec fn parse_frames(b: Seq<u8>) -> Result<Seq<RawChunkView>, ParseError>
    decreases b.len(),
{
    if b.len() == 0 {
        Ok(Seq::empty())
    } else if b.len() < 8 {
        Err(ParseError::Truncated)
    } else {
        let tag = spec_u32_from_le_bytes(b.subrange(0, 4));
        let size = spec_u32_from_le_bytes(b.subrange(4, 8)) as int;
        if b.len() - 8 < size {
            Err(ParseError::Truncated)
        } else {
            match parse_frames(b.skip(8 + size)) {
                Ok(rest) => Ok(
                    seq![RawChunkView { tag, payload: b.subrange(8, 8 + size) }] + rest,
                ),
                Err(e) => Err(e),
            }
        }
    }
}

/// Reading inverts framing on every well-formed chunk sequence.
pub proof fn lemma_frames_roundtrip(cs: Seq<RawChunkView>)
    requires
        forall|i: int| 0 <= i < cs.len() ==> wf_chunk(#[trigger] cs[i]),
    ensures
        parse_frames(frames_bytes(cs)) == Ok::<Seq<RawChunkView>, ParseError>(cs),
    decreases cs.len(),
{
    lemma_auto_spec_u32_to_from_le_bytes();
    if cs.len() == 0 {
        assert(parse_frames(frames_bytes(cs)) matches Ok(x) && x =~= cs);
    } else {
        let c = cs[0];
        let rest = cs.drop_first();
        let b = frames_bytes(cs);
        let len = c.payload.len() as int;
        assert(b =~= frame_bytes(c) + frames_bytes(rest));
        lemma_frames_roundtrip(rest);
        assert(b.subrange(0, 4) =~= spec_u32_to_le_bytes(c.tag));
        assert(b.subrange(4, 8) =~= spec_u32_to_le_bytes(c.payload.len() as u32));
        assert(spec_u32_from_le_bytes(b.subrange(4, 8)) == len);
        assert(b.len() - 8 >= len);
        assert(b.subrange(8, 8 + len) =~= c.payload);
        assert(b.skip(8 + len) =~= frames_bytes(rest));
        assert(parse_frames(b) matches Ok(x) && x =~= cs);
    }
}

/// Chunk size integrity: in every encoded frame, the declared size field
/// holds exactly the byte length of the payload that follows it.
pub proof fn lemma_frame_size_integrity(c: RawChunkView)
    requires
        wf_chunk(c),
    ensures
        frame_bytes(c).len() == 8 + c.payload.len(),
        spec_u32_from_le_bytes(frame_bytes(c).subrange(4, 8)) == c.payload.len(),
        frame_bytes(c).subrange(8, frame_bytes(c).len() as int) == c.payload,
{
    lemma_auto_spec_u32_to_from_le_bytes();
    assert(frame_bytes(c).subrange(4, 8) =~= spec_u32_to_le_bytes(c.payload.len() as u32));
    assert(frame_bytes(c).subrange(8, frame_bytes(c).len() as int) =~= c.payload);
}

/// Framing distributes over concatenation.
pub proof fn lemma_frames_concat(a: Seq<RawChunkView>, b: Seq<RawChunkView>)
    ensures
        frames_bytes(a + b) == frames_bytes(a) + frames_bytes(b),
    decreases a.len(),
{
    if a.len() == 0 {
        assert(a + b =~= b);
        assert(frames_bytes(a) + frames_bytes(b) =~= frames_bytes(b));
    } else {
        assert((a + b)[0] == a[0]);
        assert((a + b).drop_first() =~= a.drop_first() + b);
        lemma_frames_concat(a.drop_first(), b);
        assert(frame_bytes(a[0]) + (frames_bytes(a.drop_first()) + frames_bytes(b)) =~= (
        frame_bytes(a[0]) + frames_bytes(a.drop_first())) + frames_bytes(b));
    }
}

/// The frame of a single chunk.
pub proof fn lemma_frames_single(c: RawChunkView)
    ensures
        frames_bytes(seq![c]) == frame_bytes(c),
{
    let s = seq![c];
    assert(s[0] == c);
    assert(s.drop_first() =~= Seq::<RawChunkView>::empty());
    assert(frames_bytes(Seq::<RawChunkView>::empty()) =~= Seq::<u8>::empty());
    assert(frames_bytes(s) =~= frame_bytes(c));
}

/// The view of a chunk vector.
pub open spec fn chunks_view(cs: Seq<RawChunk>) -> Seq<RawChunkView> {
    cs.map_values(|c: RawChunk| c@)
}

/// Splits `bytes` into chunk records in buffer order; `Truncated` exactly
/// where the frame grammar demands it. A fresh call is needed per buffer.
pub fn read_chunks(bytes: &[u8]) -> (r: Result<Vec<RawChunk>, ParseError>)
    ensures
        match r {
            Ok(cs) => parse_frames(bytes@) == Ok::<Seq<RawChunkView>, ParseError>(chunks_view(cs@)),
            Err(e) => parse_frames(bytes@) == Err::<Seq<RawChunkView>, ParseError>(e),
        },
{
    let mut acc: Vec<RawChunk> = Vec::new();
    let mut pos: usize = 0;
    proof {
        assert(bytes@.skip(0) =~= bytes@);
    }
    while pos < bytes.len()
        invariant
            pos <= bytes@.len(),
            forall|i: int| 0 <= i < acc@.len() ==> (#[trigger] acc@[i]).payload@.len() <= u32::MAX,
            parse_frames(bytes@) == (match parse_frames(bytes@.skip(pos as int)) {
                Ok(rest) => Ok::<Seq<RawChunkView>, ParseError>(chunks_view(acc@) + rest),
                Err(e) => Err::<Seq<RawChunkView>, ParseError>(e),
            }),
        decreases bytes@.len() - pos,
    {
        let remaining = bytes.len() - pos;
        let ghost tail = bytes@.skip(pos as int);
        if remaining < 8 {
            return Err(ParseError::Truncated);
        }
        let tag_slice = slice_subrange(bytes, pos, pos + 4);
        let size_slice = slice_subrange(bytes, pos + 4, pos + 8);
        proof {
            assert(tag_slice@ =~= tail.subrange(0, 4));
            assert(size_slice@ =~= tail.subrange(4, 8));
        }
        let tag = u32_from_le_bytes(tag_slice);
        let size = u32_from_le_bytes(size_slice);
        if (size as usize) > remaining - 8 {
            return Err(ParseError::Truncated);
        }
        let payload_slice = slice_subrange(bytes, pos + 8, pos + 8 + size as usize);
        let payload = slice_to_vec(payload_slice);
        proof {
            assert(payload@ =~= tail.subrange(8, 8 + size as int));
        }
        let chunk = RawChunk { tag, payload };
        let ghost prev = acc@;
        acc.push(chunk);
        pos = pos + 8 + size as usize;
        proof {
            let head = RawChunkView { tag, payload: tail.subrange(8, 8 + size as int) };
            assert(acc@ == prev.push(chunk));
            assert(chunks_view(acc@) =~= chunks_view(prev).push(head));
            assert(bytes@.skip(pos as int) =~= tail.skip(8 + size as int));
            assert(parse_frames(tail) == (match parse_frames(tail.skip(8 + size as int)) {
                Ok(rest) => Ok::<Seq<RawChunkView>, ParseError>(seq![head] + rest),
                Err(e) => Err::<Seq<RawChunkView>, ParseError>(e),
            }));
            if parse_frames(tail.skip(8 + size as int)) is Ok {
                let rest = parse_frames(tail.skip(8 + size as int))->Ok_0;
                assert(chunks_view(prev) + (seq![head] + rest) =~= chunks_view(acc@) + rest);
            }
        }
    }
    proof {
        assert(bytes@.skip(pos as int) =~= Seq::<u8>::empty());
        assert(chunks_view(acc@) + Seq::<RawChunkView>::empty() =~= chunks_view(acc@));
    }
    Ok(acc)
}

/// Appends the frame of one chunk: tag, size, then the payload bytes.
pub fn write_chunk(out: &mut Vec<u8>, tag: u32, payload: &Vec<u8>)
    requires
        payload@.len() <= u32::MAX,
    ensures
        final(out)@ == old(out)@ + frame_bytes(RawChunkView { tag, payload: payload@ }),
{
    crate::words::push_word(out, tag);
    crate::words::push_word(out, payload.len() as u32);
    out.extend_from_slice(payload.as_slice());
    proof {
        assert(out@ =~= old(out)@ + frame_bytes(RawChunkView { tag, payload: payload@ }));
    }
}

} // verus!
