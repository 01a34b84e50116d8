//! The word layer: every known chunk payload is a sequence of 32-bit words,
//! each stored little-endian. Splitting payload codecs into a word codec and
//! per-chunk record packing keeps the byte-level reasoning in one place.

use vstd::bytes::{
    lemma_auto_spec_u32_to_from_le_bytes, spec_u32_from_le_bytes, spec_u32_to_le_bytes,
    u32_from_le_bytes, u32_to_le_bytes,
};
use vstd::prelude::*;
use vstd::slice::slice_subrange;

verus! {

/// Bytes of a word sequence: each word little-endian, in order.
pub open spec fn enc_words(ws: Seq<u32>) -> Seq<u8>
    decreases ws.len(),
{
    if ws.len() == 0 {
        Seq::empty()
    } else {
        enc_words(ws.drop_last()) + spec_u32_to_le_bytes(ws.last())
    }
}

/// Words of a byte sequence; `None` unless the length is a multiple of four.
pub open spec fn dec_words(b: Seq<u8>) -> Option<Seq<u32>> {
    if b.len() % 4 == 0 {
        Some(Seq::new(b.len() / 4, |i: int| spec_u32_from_le_bytes(b.subrange(4 * i, 4 * i + 4))))
    } else {
        None
    }
}

pub proof fn lemma_enc_words_len(ws: Seq<u32>)
    ensures
        enc_words(ws).len() == 4 * ws.len(),
    decreases ws.len(),
{
    lemma_auto_spec_u32_to_from_le_bytes();
    if ws.len() > 0 {
        lemma_enc_words_len(ws.drop_last());
    }
}

/// Decoding inverts encoding on every word sequence.
pub proof fn lemma_words_roundtrip(ws: Seq<u32>)
    ensures
        dec_words(enc_words(ws)) == Some(ws),
    decreases ws.len(),
{
    lemma_auto_spec_u32_to_from_le_bytes();
    lemma_enc_words_len(ws);
    if ws.len() == 0 {
        assert(dec_words(enc_words(ws)) matches Some(x) && x =~= ws);
    } else {
        let pre = ws.drop_last();
        let n = pre.len() as int;
        lemma_words_roundtrip(pre);
        lemma_enc_words_len(pre);
        let b = enc_words(ws);
        let bp = enc_words(pre);
        let dp = dec_words(bp)->Some_0;
        assert(dp =~= pre);
        assert forall|i: int| 0 <= i < ws.len() implies spec_u32_from_le_bytes(
            #[trigger] b.subrange(4 * i, 4 * i + 4),
        ) == ws[i] by {
            if i < n {
                assert(b.subrange(4 * i, 4 * i + 4) =~= bp.subrange(4 * i, 4 * i + 4));
                assert(dp[i] == pre[i]);
            } else {
                assert(b.subrange(4 * i, 4 * i + 4) =~= spec_u32_to_le_bytes(ws.last()));
            }
        }
        assert(dec_words(b) matches Some(x) && x =~= ws);
    }
}

/// Appends the little-endian bytes of one word.
pub fn push_word(out: &mut Vec<u8>, w: u32)
    ensures
        final(out)@ == old(out)@ + spec_u32_to_le_bytes(w),
{
    let wb = u32_to_le_bytes(w);
    out.extend_from_slice(wb.as_slice());
}

/// Encodes a word sequence as bytes.
pub fn encode_words(ws: &Vec<u32>) -> (out: Vec<u8>)
    ensures
        out@ == enc_words(ws@),
{
    let mut out: Vec<u8> = Vec::new();
    let mut i: usize = 0;
    while i < ws.len()
        invariant
            i <= ws@.len(),
            out@ == enc_words(ws@.take(i as int)),
        decreases ws@.len() - i,
    {
        push_word(&mut out, ws[i]);
        proof {
            let t = ws@.take(i + 1);
            assert(t.drop_last() =~= ws@.take(i as int));
            assert(t.last() == ws@[i as int]);
        }
        i = i + 1;
    }
    proof {
        assert(ws@.take(ws@.len() as int) =~= ws@);
    }
    out
}

/// Decodes bytes into words; `None` unless the length is a multiple of four.
pub fn decode_words(b: &[u8]) -> (r: Option<Vec<u32>>)
    ensures
        match r {
            Some(ws) => dec_words(b@) == Some(ws@),
            None => dec_words(b@) is None,
        },
{
    if b.len() % 4 != 0 {
        return None;
    }
    let n = b.len() / 4;
    proof {
        assert(4 * (n as int) == b@.len());
    }
    let mut ws: Vec<u32> = Vec::new();
    let mut i: usize = 0;
    while i < n
        invariant
            b@.len() % 4 == 0,
            b@.len() <= usize::MAX,
            4 * (n as int) == b@.len(),
            i <= n,
            ws@.len() == i,
            forall|j: int|
                0 <= j < i ==> ws@[j] == spec_u32_from_le_bytes(b@.subrange(4 * j, 4 * j + 4)),
        decreases n - i,
    {
        let sub = slice_subrange(b, 4 * i, 4 * i + 4);
        let w = u32_from_le_bytes(sub);
        ws.push(w);
        i = i + 1;
    }
    proof {
        let d = dec_words(b@)->Some_0;
        assert(d =~= ws@);
    }
    Some(ws)
}

} // verus!
