//! Typed chunks and their codecs. Every known chunk payload is a word
//! sequence (see `words`); this module packs typed records into words and
//! back, and holds the per-version layout rule tables.
//!
//! Word layouts, by tag:
//! - `BONE`: count, then per bone `[parent, flags]`.
//! - `SEQS`: count, then per sequence `[id, start, end]` from Cataclysm on;
//!   before Cataclysm `[id, end * 0x10000 + start]` with 16-bit timestamps.
//! - `TEXS`: count, then per texture `[kind, flags, name_ref]` from Wrath on;
//!   before Wrath `[kind, flags]` and no name reference.
//! - `MATL`: count, then per material `[texture, blend]`.
//! - `ATCH`: count, then per attachment `[bone, kind]`.
//! - `PFID`: exactly one word, the physics file id.
//! - `PHYS`: count, then one physics flag word per bone.
//! - `EXPT`: count, then one extension entry word each.

use crate::version::M2Version;
use vstd::prelude::*;

verus! {

/// Tag words, little-endian packings of the four ASCII tag bytes.
pub const TAG_BONE: u32 = 0x454E4F42;

pub const TAG_SEQS: u32 = 0x53514553;

pub const TAG_TEXS: u32 = 0x53584554;

pub const TAG_MATL: u32 = 0x4C54414D;

pub const TAG_ATCH: u32 = 0x48435441;

pub const TAG_PFID: u32 = 0x44494650;

pub const TAG_PHYS: u32 = 0x53594850;

pub const TAG_EXPT: u32 = 0x54505845;

/// One bone node: parent index into the bone list (or a sentinel) and flags.
#[derive(Clone, Copy, Debug, PartialEq, Eq, Structural)]
pub struct M2Bone {
    pub parent: u32,
    pub flags: u32,
}

/// One animation sequence: id and start/end timestamps.
#[derive(Clone, Copy, Debug, PartialEq, Eq, Structural)]
pub struct M2Sequence {
    pub id: u32,
    pub start: u32,
    pub end: u32,
}

/// One texture: kind, flags, and (from Wrath on) a name-table reference.
#[derive(Clone, Copy, Debug, PartialEq, Eq, Structural)]
pub struct M2Texture {
    pub kind: u32,
    pub flags: u32,
    pub name_ref: u32,
}

/// One material: texture index into the texture list and blend mode.
#[derive(Clone, Copy, Debug, PartialEq, Eq, Structural)]
pub struct M2Material {
    pub texture: u32,
    pub blend: u32,
}

/// One attachment point: bone index into the bone list and attachment kind.
#[derive(Clone, Copy, Debug, PartialEq, Eq, Structural)]
pub struct M2Attachment {
    pub bone: u32,
    pub kind: u32,
}

/// Whether this library decodes the tag into a typed chunk.
pub open spec fn is_known_tag(tag: u32) -> bool {
    tag == TAG_BONE || tag == TAG_SEQS || tag == TAG_TEXS || tag == TAG_MATL || tag == TAG_ATCH
        || tag == TAG_PFID || tag == TAG_PHYS || tag == TAG_EXPT
}

/// Which versions allow a known tag at all. `PFID` exists from Wrath on,
/// `PHYS` from Cataclysm on, `EXPT` from Legion on; the rest are timeless.
pub open spec fn spec_chunk_legal(tag: u32, v: M2Version) -> bool {
    if tag == TAG_PFID {
        v.spec_ordinal() >= 2
    } else if tag == TAG_PHYS {
        v.spec_ordinal() >= 3
    } else if tag == TAG_EXPT {
        v.spec_ordinal() >= 5
    } else {
        true
    }
}

/// Which versions require a known tag to be present. The extension table
/// is mandatory from Legion on and has a documented zero-cost default (the
/// empty list); the physics table is mandatory from Pandaria on and has no
/// safe default, since it must match the bone list entry for entry.
pub open spec fn spec_chunk_required(tag: u32, v: M2Version) -> bool {
    (tag == TAG_EXPT && v.spec_ordinal() >= 5) || (tag == TAG_PHYS && v.spec_ordinal() >= 4)
}

/// Tags flagged as required for model integrity: dropping them during a
/// conversion is refused. Bones and sequences carry the skeleton; the
/// physics table is bound to the bone list.
pub open spec fn spec_chunk_integrity(tag: u32) -> bool {
    tag == TAG_BONE || tag == TAG_SEQS || tag == TAG_PHYS
}


pub fn known_tag(tag: u32) -> (r: bool)
    ensures
        r == is_known_tag(tag),
{
    tag == TAG_BONE || tag == TAG_SEQS || tag == TAG_TEXS || tag == TAG_MATL || tag == TAG_ATCH
        || tag == TAG_PFID || tag == TAG_PHYS || tag == TAG_EXPT
}

pub fn chunk_legal(tag: u32, v: M2Version) -> (r: bool)
    ensures
        r == spec_chunk_legal(tag, v),
{
    if tag == TAG_PFID {
        v.ordinal() >= 2
    } else if tag == TAG_PHYS {
        v.ordinal() >= 3
    } else if tag == TAG_EXPT {
        v.ordinal() >= 5
    } else {
        true
    }
}

pub fn chunk_required(tag: u32, v: M2Version) -> (r: bool)
    ensures
        r == spec_chunk_required(tag, v),
{
    (tag == TAG_EXPT && v.ordinal() >= 5) || (tag == TAG_PHYS && v.ordinal() >= 4)
}

pub fn chunk_integrity(tag: u32) -> (r: bool)
    ensures
        r == spec_chunk_integrity(tag),
{
    tag == TAG_BONE || tag == TAG_SEQS || tag == TAG_PHYS
}

// ---------------------------------------------------------------------------
// Pair-record codecs: BONE, MATL, ATCH share the `[count, (a, b)*]` layout.
// ---------------------------------------------------------------------------

pub open spec fn enc_bones(s: Seq<M2Bone>) -> Seq<u32> {
    seq![s.len() as u32] + Seq::new(
        2 * s.len(),
        |j: int| if j % 2 == 0 {
            s[j / 2].parent
        } else {
            s[j / 2].flags
        },
    )
}

pub open spec fn dec_bones(ws: Seq<u32>) -> Option<Seq<M2Bone>> {
    if ws.len() >= 1 && ws.len() == 1 + 2 * (ws[0] as int) {
        Some(
            Seq::new(
                ws[0] as nat,
                |i: int| M2Bone { parent: ws[1 + 2 * i], flags: ws[2 + 2 * i] },
            ),
        )
    } else {
        None
    }
}

pub proof fn lemma_bones_roundtrip(s: Seq<M2Bone>)
    requires
        s.len() <= 0x1FFFFFFF,
    ensures
        dec_bones(enc_bones(s)) == Some(s),
{
    let ws = enc_bones(s);
    assert(ws[0] == s.len() as u32);
    assert forall|i: int| 0 <= i < s.len() implies #[trigger] dec_bones(ws)->Some_0[i] == s[i] by {
        assert(ws[1 + 2 * i] == s[i].parent);
        assert(ws[2 + 2 * i] == s[i].flags);
    }
    assert(dec_bones(ws) matches Some(x) && x =~= s);
}

pub open spec fn enc_materials(s: Seq<M2Material>) -> Seq<u32> {
    seq![s.len() as u32] + Seq::new(
        2 * s.len(),
        |j: int| if j % 2 == 0 {
            s[j / 2].texture
        } else {
            s[j / 2].blend
        },
    )
}

pub open spec fn dec_materials(ws: Seq<u32>) -> Option<Seq<M2Material>> {
    if ws.len() >= 1 && ws.len() == 1 + 2 * (ws[0] as int) {
        Some(
            Seq::new(
                ws[0] as nat,
                |i: int| M2Material { texture: ws[1 + 2 * i], blend: ws[2 + 2 * i] },
            ),
        )
    } else {
        None
    }
}

pub proof fn lemma_materials_roundtrip(s: Seq<M2Material>)
    requires
        s.len() <= 0x1FFFFFFF,
    ensures
        dec_materials(enc_materials(s)) == Some(s),
{
    let ws = enc_materials(s);
    assert(ws[0] == s.len() as u32);
    assert forall|i: int| 0 <= i < s.len() implies #[trigger] dec_materials(ws)->Some_0[i]
        == s[i] by {
        assert(ws[1 + 2 * i] == s[i].texture);
        assert(ws[2 + 2 * i] == s[i].blend);
    }
    assert(dec_materials(ws) matches Some(x) && x =~= s);
}

pub open spec fn enc_attachments(s: Seq<M2Attachment>) -> Seq<u32> {
    seq![s.len() as u32] + Seq::new(
        2 * s.len(),
        |j: int| if j % 2 == 0 {
            s[j / 2].bone
        } else {
            s[j / 2].kind
        },
    )
}

pub open spec fn dec_attachments(ws: Seq<u32>) -> Option<Seq<M2Attachment>> {
    if ws.len() >= 1 && ws.len() == 1 + 2 * (ws[0] as int) {
        Some(
            Seq::new(
                ws[0] as nat,
                |i: int| M2Attachment { bone: ws[1 + 2 * i], kind: ws[2 + 2 * i] },
            ),
        )
    } else {
        None
    }
}

pub proof fn lemma_attachments_roundtrip(s: Seq<M2Attachment>)
    requires
        s.len() <= 0x1FFFFFFF,
    ensures
        dec_attachments(enc_attachments(s)) == Some(s),
{
    let ws = enc_attachments(s);
    assert(ws[0] == s.len() as u32);
    assert forall|i: int| 0 <= i < s.len() implies #[trigger] dec_attachments(ws)->Some_0[i]
        == s[i] by {
        assert(ws[1 + 2 * i] == s[i].bone);
        assert(ws[2 + 2 * i] == s[i].kind);
    }
    assert(dec_attachments(ws) matches Some(x) && x =~= s);
}

// ---------------------------------------------------------------------------
// Sequences: 16-bit timestamps packed into one word before Cataclysm,
// full words from Cataclysm on.
// ---------------------------------------------------------------------------

/// Whether the version packs sequence timestamps into 16 bits.
pub open spec fn spec_seqs_packed(v: M2Version) -> bool {
    v.spec_ordinal() < 3
}

/// A sequence list valid under a version's layout: packed timestamps must
/// fit 16 bits.
pub open spec fn wf_sequences(s: Seq<M2Sequence>, v: M2Version) -> bool {
    &&& s.len() <= 0x15555554
    &&& (spec_seqs_packed(v) ==> forall|i: int|
        0 <= i < s.len() ==> (#[trigger] s[i]).start <= 0xFFFF && s[i].end <= 0xFFFF)
}

pub open spec fn enc_sequences(s: Seq<M2Sequence>, v: M2Version) -> Seq<u32> {
    if spec_seqs_packed(v) {
        seq![s.len() as u32] + Seq::new(
            2 * s.len(),
            |j: int| if j % 2 == 0 {
                s[j / 2].id
            } else {
                (s[j / 2].end * 0x10000 + s[j / 2].start) as u32
            },
        )
    } else {
        seq![s.len() as u32] + Seq::new(
            3 * s.len(),
            |j: int| if j % 3 == 0 {
                s[j / 3].id
            } else if j % 3 == 1 {
                s[j / 3].start
            } else {
                s[j / 3].end
            },
        )
    }
}

pub open spec fn dec_sequences(ws: Seq<u32>, v: M2Version) -> Option<Seq<M2Sequence>> {
    if spec_seqs_packed(v) {
        if ws.len() >= 1 && ws.len() == 1 + 2 * (ws[0] as int) && ws[0] <= 0x15555554 {
            Some(
                Seq::new(
                    ws[0] as nat,
                    |i: int| M2Sequence {
                        id: ws[1 + 2 * i],
                        start: (ws[2 + 2 * i] as int % 0x10000) as u32,
                        end: (ws[2 + 2 * i] as int / 0x10000) as u32,
                    },
                ),
            )
        } else {
            None
        }
    } else {
        if ws.len() >= 1 && ws.len() == 1 + 3 * (ws[0] as int) {
            Some(
                Seq::new(
                    ws[0] as nat,
                    |i: int| M2Sequence {
                        id: ws[1 + 3 * i],
                        start: ws[2 + 3 * i],
                        end: ws[3 + 3 * i],
                    },
                ),
            )
        } else {
            None
        }
    }
}

pub proof fn lemma_sequences_roundtrip(s: Seq<M2Sequence>, v: M2Version)
    requires
        wf_sequences(s, v),
    ensures
        dec_sequences(enc_sequences(s, v), v) == Some(s),
{
    let ws = enc_sequences(s, v);
    assert(ws[0] == s.len() as u32);
    if spec_seqs_packed(v) {
        assert forall|i: int| 0 <= i < s.len() implies #[trigger] dec_sequences(ws, v)->Some_0[i]
            == s[i] by {
            assert(ws[1 + 2 * i] == s[i].id);
            assert(s[i].start <= 0xFFFF && s[i].end <= 0xFFFF);
            let packed = (s[i].end * 0x10000 + s[i].start) as u32;
            assert(ws[2 + 2 * i] == packed);
            assert(packed as int % 0x10000 == s[i].start && packed as int / 0x10000 == s[i].end)
                by (nonlinear_arith)
                requires
                    s[i].start <= 0xFFFF,
                    s[i].end <= 0xFFFF,
                    packed == s[i].end * 0x10000 + s[i].start,
            ;
        }
        assert(dec_sequences(ws, v) matches Some(x) && x =~= s);
    } else {
        assert forall|i: int| 0 <= i < s.len() implies #[trigger] dec_sequences(ws, v)->Some_0[i]
            == s[i] by {
            assert(ws[1 + 3 * i] == s[i].id);
            assert(ws[2 + 3 * i] == s[i].start);
            assert(ws[3 + 3 * i] == s[i].end);
        }
        assert(dec_sequences(ws, v) matches Some(x) && x =~= s);
    }
}

// ---------------------------------------------------------------------------
// Textures: the name reference word exists from Wrath on.
// ---------------------------------------------------------------------------

/// Whether the version stores a name-reference word per texture.
pub open spec fn spec_texs_has_name_ref(v: M2Version) -> bool {
    v.spec_ordinal() >= 2
}

/// A texture list valid under a version's layout: where the layout has no
/// name-reference word, the field must be zero.
pub open spec fn wf_textures(s: Seq<M2Texture>, v: M2Version) -> bool {
    &&& s.len() <= 0x15555554
    &&& (!spec_texs_has_name_ref(v) ==> forall|i: int|
        0 <= i < s.len() ==> (#[trigger] s[i]).name_ref == 0)
}

pub open spec fn enc_textures(s: Seq<M2Texture>, v: M2Version) -> Seq<u32> {
    if spec_texs_has_name_ref(v) {
        seq![s.len() as u32] + Seq::new(
            3 * s.len(),
            |j: int| if j % 3 == 0 {
                s[j / 3].kind
            } else if j % 3 == 1 {
                s[j / 3].flags
            } else {
                s[j / 3].name_ref
            },
        )
    } else {
        seq![s.len() as u32] + Seq::new(
            2 * s.len(),
            |j: int| if j % 2 == 0 {
                s[j / 2].kind
            } else {
                s[j / 2].flags
            },
        )
    }
}

pub open spec fn dec_textures(ws: Seq<u32>, v: M2Version) -> Option<Seq<M2Texture>> {
    if spec_texs_has_name_ref(v) {
        if ws.len() >= 1 && ws.len() == 1 + 3 * (ws[0] as int) {
            Some(
                Seq::new(
                    ws[0] as nat,
                    |i: int| M2Texture {
                        kind: ws[1 + 3 * i],
                        flags: ws[2 + 3 * i],
                        name_ref: ws[3 + 3 * i],
                    },
                ),
            )
        } else {
            None
        }
    } else {
        if ws.len() >= 1 && ws.len() == 1 + 2 * (ws[0] as int) && ws[0] <= 0x15555554 {
            Some(
                Seq::new(
                    ws[0] as nat,
                    |i: int| M2Texture { kind: ws[1 + 2 * i], flags: ws[2 + 2 * i], name_ref: 0 },
                ),
            )
        } else {
            None
        }
    }
}

pub proof fn lemma_textures_roundtrip(s: Seq<M2Texture>, v: M2Version)
    requires
        wf_textures(s, v),
    ensures
        dec_textures(enc_textures(s, v), v) == Some(s),
{
    let ws = enc_textures(s, v);
    assert(ws[0] == s.len() as u32);
    if spec_texs_has_name_ref(v) {
        assert forall|i: int| 0 <= i < s.len() implies #[trigger] dec_textures(ws, v)->Some_0[i]
            == s[i] by {
            assert(ws[1 + 3 * i] == s[i].kind);
            assert(ws[2 + 3 * i] == s[i].flags);
            assert(ws[3 + 3 * i] == s[i].name_ref);
        }
        assert(dec_textures(ws, v) matches Some(x) && x =~= s);
    } else {
        assert forall|i: int| 0 <= i < s.len() implies #[trigger] dec_textures(ws, v)->Some_0[i]
            == s[i] by {
            assert(ws[1 + 2 * i] == s[i].kind);
            assert(ws[2 + 2 * i] == s[i].flags);
            assert(s[i].name_ref == 0);
        }
        assert(dec_textures(ws, v) matches Some(x) && x =~= s);
    }
}

// ---------------------------------------------------------------------------
// Word-list codecs: PHYS and EXPT are `[count, word*]`; PFID one word.
// ---------------------------------------------------------------------------

pub open spec fn enc_word_list(s: Seq<u32>) -> Seq<u32> {
    seq![s.len() as u32] + s
}

pub open spec fn dec_word_list(ws: Seq<u32>) -> Option<Seq<u32>> {
    if ws.len() >= 1 && ws.len() == 1 + (ws[0] as int) {
        Some(ws.skip(1))
    } else {
        None
    }
}

pub proof fn lemma_word_list_roundtrip(s: Seq<u32>)
    requires
        s.len() <= 0x3FFFFFFE,
    ensures
        dec_word_list(enc_word_list(s)) == Some(s),
{
    let ws = enc_word_list(s);
    assert(ws[0] == s.len() as u32);
    assert(ws.skip(1) =~= s);
}

pub open spec fn enc_pfid(id: u32) -> Seq<u32> {
    seq![id]
}

pub open spec fn dec_pfid(ws: Seq<u32>) -> Option<u32> {
    if ws.len() == 1 {
        Some(ws[0])
    } else {
        None
    }
}


// ---------------------------------------------------------------------------
// Executable packing and unpacking.
// ---------------------------------------------------------------------------

/// Unpacks a bone list from payload words.
pub fn decode_bones_words(ws: &Vec<u32>) -> (r: Option<Vec<M2Bone>>)
    ensures
        match r {
            Some(v) => dec_bones(ws@) == Some(v@),
            None => dec_bones(ws@) is None,
        },
{
    if ws.len() == 0 || (ws.len() - 1) % 2 != 0 {
        return None;
    }
    let n = (ws.len() - 1) / 2;
    if ws[0] as u64 != n as u64 {
        return None;
    }
    let mut v: Vec<M2Bone> = Vec::new();
    let mut i: usize = 0;
    while i < n
        invariant
            ws@.len() <= usize::MAX,
            ws@.len() == 1 + 2 * n,
            n == ws@[0],
            i <= n,
            v@.len() == i,
            forall|j: int|
                0 <= j < i ==> #[trigger] v@[j] == (M2Bone {
                    parent: ws@[1 + 2 * j],
                    flags: ws@[2 + 2 * j],
                }),
        decreases n - i,
    {
        v.push(M2Bone { parent: ws[1 + 2 * i], flags: ws[2 + 2 * i] });
        i = i + 1;
    }
    proof {
        assert(dec_bones(ws@) matches Some(x) && x =~= v@);
    }
    Some(v)
}

/// Packs a bone list into payload words.
pub fn encode_bones_words(v: &Vec<M2Bone>) -> (out: Vec<u32>)
    requires
        v@.len() <= 0x1FFFFFFF,
    ensures
        out@ == enc_bones(v@),
{
    let mut out: Vec<u32> = Vec::new();
    out.push(v.len() as u32);
    let mut i: usize = 0;
    while i < v.len()
        invariant
            v@.len() <= 0x1FFFFFFF,
            i <= v@.len(),
            out@.len() == 1 + 2 * i,
            out@[0] == v@.len() as u32,
            forall|j: int|
                0 <= j < i ==> out@[1 + 2 * j] == (#[trigger] v@[j]).parent && out@[2 + 2 * j]
                    == v@[j].flags,
        decreases v@.len() - i,
    {
        out.push(v[i].parent);
        out.push(v[i].flags);
        i = i + 1;
    }
    proof {
        assert(out@ =~= enc_bones(v@));
    }
    out
}

/// Unpacks a material list from payload words.
pub fn decode_materials_words(ws: &Vec<u32>) -> (r: Option<Vec<M2Material>>)
    ensures
        match r {
            Some(v) => dec_materials(ws@) == Some(v@),
            None => dec_materials(ws@) is None,
        },
{
    if ws.len() == 0 || (ws.len() - 1) % 2 != 0 {
        return None;
    }
    let n = (ws.len() - 1) / 2;
    if ws[0] as u64 != n as u64 {
        return None;
    }
    let mut v: Vec<M2Material> = Vec::new();
    let mut i: usize = 0;
    while i < n
        invariant
            ws@.len() <= usize::MAX,
            ws@.len() == 1 + 2 * n,
            n == ws@[0],
            i <= n,
            v@.len() == i,
            forall|j: int|
                0 <= j < i ==> #[trigger] v@[j] == (M2Material {
                    texture: ws@[1 + 2 * j],
                    blend: ws@[2 + 2 * j],
                }),
        decreases n - i,
    {
        v.push(M2Material { texture: ws[1 + 2 * i], blend: ws[2 + 2 * i] });
        i = i + 1;
    }
    proof {
        assert(dec_materials(ws@) matches Some(x) && x =~= v@);
    }
    Some(v)
}

/// Packs a material list into payload words.
pub fn encode_materials_words(v: &Vec<M2Material>) -> (out: Vec<u32>)
    requires
        v@.len() <= 0x1FFFFFFF,
    ensures
        out@ == enc_materials(v@),
{
    let mut out: Vec<u32> = Vec::new();
    out.push(v.len() as u32);
    let mut i: usize = 0;
    while i < v.len()
        invariant
            v@.len() <= 0x1FFFFFFF,
            i <= v@.len(),
            out@.len() == 1 + 2 * i,
            out@[0] == v@.len() as u32,
            forall|j: int|
                0 <= j < i ==> out@[1 + 2 * j] == (#[trigger] v@[j]).texture && out@[2 + 2 * j]
                    == v@[j].blend,
        decreases v@.len() - i,
    {
        out.push(v[i].texture);
        out.push(v[i].blend);
        i = i + 1;
    }
    proof {
        assert(out@ =~= enc_materials(v@));
    }
    out
}

/// Unpacks an attachment list from payload words.
pub fn decode_attachments_words(ws: &Vec<u32>) -> (r: Option<Vec<M2Attachment>>)
    ensures
        match r {
            Some(v) => dec_attachments(ws@) == Some(v@),
            None => dec_attachments(ws@) is None,
        },
{
    if ws.len() == 0 || (ws.len() - 1) % 2 != 0 {
        return None;
    }
    let n = (ws.len() - 1) / 2;
    if ws[0] as u64 != n as u64 {
        return None;
    }
    let mut v: Vec<M2Attachment> = Vec::new();
    let mut i: usize = 0;
    while i < n
        invariant
            ws@.len() <= usize::MAX,
            ws@.len() == 1 + 2 * n,
            n == ws@[0],
            i <= n,
            v@.len() == i,
            forall|j: int|
                0 <= j < i ==> #[trigger] v@[j] == (M2Attachment {
                    bone: ws@[1 + 2 * j],
                    kind: ws@[2 + 2 * j],
                }),
        decreases n - i,
    {
        v.push(M2Attachment { bone: ws[1 + 2 * i], kind: ws[2 + 2 * i] });
        i = i + 1;
    }
    proof {
        assert(dec_attachments(ws@) matches Some(x) && x =~= v@);
    }
    Some(v)
}

/// Packs an attachment list into payload words.
pub fn encode_attachments_words(v: &Vec<M2Attachment>) -> (out: Vec<u32>)
    requires
        v@.len() <= 0x1FFFFFFF,
    ensures
        out@ == enc_attachments(v@),
{
    let mut out: Vec<u32> = Vec::new();
    out.push(v.len() as u32);
    let mut i: usize = 0;
    while i < v.len()
        invariant
            v@.len() <= 0x1FFFFFFF,
            i <= v@.len(),
            out@.len() == 1 + 2 * i,
            out@[0] == v@.len() as u32,
            forall|j: int|
                0 <= j < i ==> out@[1 + 2 * j] == (#[trigger] v@[j]).bone && out@[2 + 2 * j]
                    == v@[j].kind,
        decreases v@.len() - i,
    {
        out.push(v[i].bone);
        out.push(v[i].kind);
        i = i + 1;
    }
    proof {
        assert(out@ =~= enc_attachments(v@));
    }
    out
}

/// Unpacks a sequence list from payload words under a version's layout.
pub fn decode_sequences_words(ws: &Vec<u32>, v: M2Version) -> (r: Option<Vec<M2Sequence>>)
    ensures
        match r {
            Some(s) => dec_sequences(ws@, v) == Some(s@),
            None => dec_sequences(ws@, v) is None,
        },
{
    let packed = v.ordinal() < 3;
    if packed {
        if ws.len() == 0 || (ws.len() - 1) % 2 != 0 {
            return None;
        }
        let n = (ws.len() - 1) / 2;
        if ws[0] as u64 != n as u64 || n as u64 > 0x15555554 {
            return None;
        }
        let mut s: Vec<M2Sequence> = Vec::new();
        let mut i: usize = 0;
        while i < n
            invariant
                spec_seqs_packed(v),
                ws@.len() <= usize::MAX,
            ws@.len() == 1 + 2 * n,
                n == ws@[0],
                i <= n,
                s@.len() == i,
                forall|j: int|
                    0 <= j < i ==> #[trigger] s@[j] == (M2Sequence {
                        id: ws@[1 + 2 * j],
                        start: (ws@[2 + 2 * j] as int % 0x10000) as u32,
                        end: (ws@[2 + 2 * j] as int / 0x10000) as u32,
                    }),
            decreases n - i,
        {
            let w = ws[2 + 2 * i];
            s.push(M2Sequence { id: ws[1 + 2 * i], start: w % 0x10000, end: w / 0x10000 });
            i = i + 1;
        }
        proof {
            assert(dec_sequences(ws@, v) matches Some(x) && x =~= s@);
        }
        Some(s)
    } else {
        if ws.len() == 0 || (ws.len() - 1) % 3 != 0 {
            return None;
        }
        let n = (ws.len() - 1) / 3;
        if ws[0] as u64 != n as u64 {
            return None;
        }
        let mut s: Vec<M2Sequence> = Vec::new();
        let mut i: usize = 0;
        while i < n
            invariant
                !spec_seqs_packed(v),
                ws@.len() <= usize::MAX,
            ws@.len() == 1 + 3 * n,
                n == ws@[0],
                i <= n,
                s@.len() == i,
                forall|j: int|
                    0 <= j < i ==> #[trigger] s@[j] == (M2Sequence {
                        id: ws@[1 + 3 * j],
                        start: ws@[2 + 3 * j],
                        end: ws@[3 + 3 * j],
                    }),
            decreases n - i,
        {
            s.push(M2Sequence { id: ws[1 + 3 * i], start: ws[2 + 3 * i], end: ws[3 + 3 * i] });
            i = i + 1;
        }
        proof {
            assert(dec_sequences(ws@, v) matches Some(x) && x =~= s@);
        }
        Some(s)
    }
}

/// Packs a sequence list into payload words under a version's layout.
pub fn encode_sequences_words(s: &Vec<M2Sequence>, v: M2Version) -> (out: Vec<u32>)
    requires
        wf_sequences(s@, v),
    ensures
        out@ == enc_sequences(s@, v),
{
    let packed = v.ordinal() < 3;
    let mut out: Vec<u32> = Vec::new();
    out.push(s.len() as u32);
    let mut i: usize = 0;
    if packed {
        while i < s.len()
            invariant
                spec_seqs_packed(v),
                wf_sequences(s@, v),
                i <= s@.len(),
                out@.len() == 1 + 2 * i,
                out@[0] == s@.len() as u32,
                forall|j: int|
                    0 <= j < i ==> out@[1 + 2 * j] == (#[trigger] s@[j]).id && out@[2 + 2 * j]
                        == s@[j].end * 0x10000 + s@[j].start,
            decreases s@.len() - i,
        {
            assert(s@[i as int].start <= 0xFFFF && s@[i as int].end <= 0xFFFF);
            out.push(s[i].id);
            out.push(s[i].end * 0x10000 + s[i].start);
            i = i + 1;
        }
        proof {
            assert(out@ =~= enc_sequences(s@, v));
        }
    } else {
        while i < s.len()
            invariant
                !spec_seqs_packed(v),
                i <= s@.len(),
                out@.len() == 1 + 3 * i,
                out@[0] == s@.len() as u32,
                forall|j: int|
                    0 <= j < i ==> out@[1 + 3 * j] == (#[trigger] s@[j]).id && out@[2 + 3 * j]
                        == s@[j].start && out@[3 + 3 * j] == s@[j].end,
            decreases s@.len() - i,
        {
            out.push(s[i].id);
            out.push(s[i].start);
            out.push(s[i].end);
            i = i + 1;
        }
        proof {
            assert(out@ =~= enc_sequences(s@, v));
        }
    }
    out
}

/// Unpacks a texture list from payload words under a version's layout.
pub fn decode_textures_words(ws: &Vec<u32>, v: M2Version) -> (r: Option<Vec<M2Texture>>)
    ensures
        match r {
            Some(s) => dec_textures(ws@, v) == Some(s@),
            None => dec_textures(ws@, v) is None,
        },
{
    let wide = v.ordinal() >= 2;
    if wide {
        if ws.len() == 0 || (ws.len() - 1) % 3 != 0 {
            return None;
        }
        let n = (ws.len() - 1) / 3;
        if ws[0] as u64 != n as u64 {
            return None;
        }
        let mut s: Vec<M2Texture> = Vec::new();
        let mut i: usize = 0;
        while i < n
            invariant
                spec_texs_has_name_ref(v),
                ws@.len() <= usize::MAX,
            ws@.len() == 1 + 3 * n,
                n == ws@[0],
                i <= n,
                s@.len() == i,
                forall|j: int|
                    0 <= j < i ==> #[trigger] s@[j] == (M2Texture {
                        kind: ws@[1 + 3 * j],
                        flags: ws@[2 + 3 * j],
                        name_ref: ws@[3 + 3 * j],
                    }),
            decreases n - i,
        {
            s.push(
                M2Texture { kind: ws[1 + 3 * i], flags: ws[2 + 3 * i], name_ref: ws[3 + 3 * i] },
            );
            i = i + 1;
        }
        proof {
            assert(dec_textures(ws@, v) matches Some(x) && x =~= s@);
        }
        Some(s)
    } else {
        if ws.len() == 0 || (ws.len() - 1) % 2 != 0 {
            return None;
        }
        let n = (ws.len() - 1) / 2;
        if ws[0] as u64 != n as u64 || n as u64 > 0x15555554 {
            return None;
        }
        let mut s: Vec<M2Texture> = Vec::new();
        let mut i: usize = 0;
        while i < n
            invariant
                !spec_texs_has_name_ref(v),
                ws@.len() <= usize::MAX,
            ws@.len() == 1 + 2 * n,
                n == ws@[0],
                i <= n,
                s@.len() == i,
                forall|j: int|
                    0 <= j < i ==> #[trigger] s@[j] == (M2Texture {
                        kind: ws@[1 + 2 * j],
                        flags: ws@[2 + 2 * j],
                        name_ref: 0,
                    }),
            decreases n - i,
        {
            s.push(M2Texture { kind: ws[1 + 2 * i], flags: ws[2 + 2 * i], name_ref: 0 });
            i = i + 1;
        }
        proof {
            assert(dec_textures(ws@, v) matches Some(x) && x =~= s@);
        }
        Some(s)
    }
}

/// Packs a texture list into payload words under a version's layout.
pub fn encode_textures_words(s: &Vec<M2Texture>, v: M2Version) -> (out: Vec<u32>)
    requires
        wf_textures(s@, v),
    ensures
        out@ == enc_textures(s@, v),
{
    let wide = v.ordinal() >= 2;
    let mut out: Vec<u32> = Vec::new();
    out.push(s.len() as u32);
    let mut i: usize = 0;
    if wide {
        while i < s.len()
            invariant
                spec_texs_has_name_ref(v),
                i <= s@.len(),
                out@.len() == 1 + 3 * i,
                out@[0] == s@.len() as u32,
                forall|j: int|
                    0 <= j < i ==> out@[1 + 3 * j] == (#[trigger] s@[j]).kind && out@[2 + 3 * j]
                        == s@[j].flags && out@[3 + 3 * j] == s@[j].name_ref,
            decreases s@.len() - i,
        {
            out.push(s[i].kind);
            out.push(s[i].flags);
            out.push(s[i].name_ref);
            i = i + 1;
        }
        proof {
            assert(out@ =~= enc_textures(s@, v));
        }
    } else {
        while i < s.len()
            invariant
                !spec_texs_has_name_ref(v),
                i <= s@.len(),
                out@.len() == 1 + 2 * i,
                out@[0] == s@.len() as u32,
                forall|j: int|
                    0 <= j < i ==> out@[1 + 2 * j] == (#[trigger] s@[j]).kind && out@[2 + 2 * j]
                        == s@[j].flags,
            decreases s@.len() - i,
        {
            out.push(s[i].kind);
            out.push(s[i].flags);
            i = i + 1;
        }
        proof {
            assert(out@ =~= enc_textures(s@, v));
        }
    }
    out
}

/// Unpacks a counted word list (`PHYS`, `EXPT`) from payload words.
pub fn decode_word_list(ws: &Vec<u32>) -> (r: Option<Vec<u32>>)
    ensures
        match r {
            Some(s) => dec_word_list(ws@) == Some(s@),
            None => dec_word_list(ws@) is None,
        },
{
    if ws.len() == 0 {
        return None;
    }
    let n = ws.len() - 1;
    if ws[0] as u64 != n as u64 {
        return None;
    }
    let mut s: Vec<u32> = Vec::new();
    let mut i: usize = 0;
    while i < n
        invariant
            ws@.len() <= usize::MAX,
            ws@.len() == 1 + n,
            i <= n,
            s@.len() == i,
            forall|j: int| 0 <= j < i ==> s@[j] == ws@[1 + j],
        decreases n - i,
    {
        s.push(ws[1 + i]);
        i = i + 1;
    }
    proof {
        assert(dec_word_list(ws@) matches Some(x) && x =~= s@);
    }
    Some(s)
}

/// Packs a counted word list (`PHYS`, `EXPT`) into payload words.
pub fn encode_word_list(s: &Vec<u32>) -> (out: Vec<u32>)
    requires
        s@.len() <= 0x3FFFFFFE,
    ensures
        out@ == enc_word_list(s@),
{
    let mut out: Vec<u32> = Vec::new();
    out.push(s.len() as u32);
    let mut i: usize = 0;
    while i < s.len()
        invariant
            i <= s@.len(),
            out@.len() == 1 + i,
            out@[0] == s@.len() as u32,
            forall|j: int| 0 <= j < i ==> out@[1 + j] == s@[j],
        decreases s@.len() - i,
    {
        out.push(s[i]);
        i = i + 1;
    }
    proof {
        assert(out@ =~= enc_word_list(s@));
    }
    out
}

} // verus!
