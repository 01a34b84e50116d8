//! The model aggregate: a fixed header (magic and version ordinal) followed
//! by chunk frames. Loading decodes each known chunk exactly once into a
//! typed slot and passes unknown tags through as raw payloads; saving
//! re-encodes every chunk in the canonical tag order of the layout rules.

use crate::chunks::{
    chunk_legal, dec_attachments, dec_bones, dec_materials, dec_pfid, dec_sequences, dec_textures,
    dec_word_list, decode_attachments_words, decode_bones_words, decode_materials_words,
    decode_sequences_words, decode_textures_words, decode_word_list, enc_attachments, enc_bones,
    enc_materials, enc_pfid, enc_sequences, enc_textures, enc_word_list, encode_attachments_words,
    encode_bones_words, encode_materials_words, encode_sequences_words, encode_textures_words,
    encode_word_list, is_known_tag, spec_chunk_legal, spec_chunk_required, wf_sequences,
    wf_textures, M2Attachment, M2Bone, M2Material, M2Sequence, M2Texture, TAG_ATCH, TAG_BONE,
    TAG_EXPT, TAG_MATL, TAG_PFID, TAG_PHYS, TAG_SEQS, TAG_TEXS,
};
use crate::error::{ParseError, ValidationError};
use crate::reader::{
    frame_bytes, frames_bytes, parse_frames, read_chunks, wf_chunk, write_chunk, RawChunk,
    RawChunkView,
};
use crate::version::M2Version;
use crate::words::{
    dec_words, decode_words, enc_words, encode_words, lemma_enc_words_len, lemma_words_roundtrip,
    push_word,
};
use vstd::bytes::{lemma_auto_spec_u32_to_from_le_bytes, spec_u32_from_le_bytes,
    spec_u32_to_le_bytes, u32_from_le_bytes};
use vstd::prelude::*;
use vstd::slice::{slice_subrange, slice_to_vec};

verus! {

/// The magic word that opens every model file: the four magic bytes packed
/// little-endian.
pub const MODEL_MAGIC: u32 = 0x31324D44;

/// Mathematical image of a model: the declared version, one optional value
/// per known chunk tag, and the unknown chunks in first-seen order.
#[verifier::ext_equal]
pub struct ModelView {
    pub version: M2Version,
    pub bones: Option<Seq<M2Bone>>,
    pub sequences: Option<Seq<M2Sequence>>,
    pub textures: Option<Seq<M2Texture>>,
    pub materials: Option<Seq<M2Material>>,
    pub attachments: Option<Seq<M2Attachment>>,
    pub physics_file_id: Option<u32>,
    pub physics: Option<Seq<u32>>,
    pub extensions: Option<Seq<u32>>,
    pub unknown: Seq<RawChunkView>,
}

/// A decoded model: the declared version, one optional typed value per
/// known chunk tag, and unknown chunks passed through in first-seen order.
#[derive(Debug, PartialEq, Eq)]
pub struct M2Model {
    pub version: M2Version,
    pub bones: Option<Vec<M2Bone>>,
    pub sequences: Option<Vec<M2Sequence>>,
    pub textures: Option<Vec<M2Texture>>,
    pub materials: Option<Vec<M2Material>>,
    pub attachments: Option<Vec<M2Attachment>>,
    pub physics_file_id: Option<u32>,
    pub physics: Option<Vec<u32>>,
    pub extensions: Option<Vec<u32>>,
    pub unknown: Vec<RawChunk>,
}

impl View for M2Model {
    type V = ModelView;

    open spec fn view(&self) -> ModelView {
        ModelView {
            version: self.version,
            bones: match self.bones {
                Some(v) => Some(v@),
                None => None,
            },
            sequences: match self.sequences {
                Some(v) => Some(v@),
                None => None,
            },
            textures: match self.textures {
                Some(v) => Some(v@),
                None => None,
            },
            materials: match self.materials {
                Some(v) => Some(v@),
                None => None,
            },
            attachments: match self.attachments {
                Some(v) => Some(v@),
                None => None,
            },
            physics_file_id: self.physics_file_id,
            physics: match self.physics {
                Some(v) => Some(v@),
                None => None,
            },
            extensions: match self.extensions {
                Some(v) => Some(v@),
                None => None,
            },
            unknown: crate::reader::chunks_view(self.unknown@),
        }
    }
}

/// A freshly-opened model at a version: every slot empty.
pub open spec fn spec_empty_model(v: M2Version) -> ModelView {
    ModelView {
        version: v,
        bones: None,
        sequences: None,
        textures: None,
        materials: None,
        attachments: None,
        physics_file_id: None,
        physics: None,
        extensions: None,
        unknown: Seq::empty(),
    }
}

/// Dispatches one chunk record into the model: a known tag must be legal
/// for the version, occur at most once, and decode; an unknown tag is kept
/// as an opaque payload.
pub open spec fn spec_apply_chunk(m: ModelView, c: RawChunkView) -> Result<ModelView, ParseError> {
    if !is_known_tag(c.tag) {
        Ok(ModelView { unknown: m.unknown.push(c), ..m })
    } else if !spec_chunk_legal(c.tag, m.version) {
        Err(ParseError::IllegalChunkForVersion)
    } else if c.tag == TAG_BONE {
        if m.bones is Some {
            Err(ParseError::DuplicateChunk)
        } else {
            match dec_words(c.payload) {
                Some(ws) => match dec_bones(ws) {
                    Some(s) => Ok(ModelView { bones: Some(s), ..m }),
                    None => Err(ParseError::Truncated),
                },
                None => Err(ParseError::Truncated),
            }
        }
    } else if c.tag == TAG_SEQS {
        if m.sequences is Some {
            Err(ParseError::DuplicateChunk)
        } else {
            match dec_words(c.payload) {
                Some(ws) => match dec_sequences(ws, m.version) {
                    Some(s) => Ok(ModelView { sequences: Some(s), ..m }),
                    None => Err(ParseError::Truncated),
                },
                None => Err(ParseError::Truncated),
            }
        }
    } else if c.tag == TAG_TEXS {
        if m.textures is Some {
            Err(ParseError::DuplicateChunk)
        } else {
            match dec_words(c.payload) {
                Some(ws) => match dec_textures(ws, m.version) {
                    Some(s) => Ok(ModelView { textures: Some(s), ..m }),
                    None => Err(ParseError::Truncated),
                },
                None => Err(ParseError::Truncated),
            }
        }
    } else if c.tag == TAG_MATL {
        if m.materials is Some {
            Err(ParseError::DuplicateChunk)
        } else {
            match dec_words(c.payload) {
                Some(ws) => match dec_materials(ws) {
                    Some(s) => Ok(ModelView { materials: Some(s), ..m }),
                    None => Err(ParseError::Truncated),
                },
                None => Err(ParseError::Truncated),
            }
        }
    } else if c.tag == TAG_ATCH {
        if m.attachments is Some {
            Err(ParseError::DuplicateChunk)
        } else {
            match dec_words(c.payload) {
                Some(ws) => match dec_attachments(ws) {
                    Some(s) => Ok(ModelView { attachments: Some(s), ..m }),
                    None => Err(ParseError::Truncated),
                },
                None => Err(ParseError::Truncated),
            }
        }
    } else if c.tag == TAG_PFID {
        if m.physics_file_id is Some {
            Err(ParseError::DuplicateChunk)
        } else {
            match dec_words(c.payload) {
                Some(ws) => match dec_pfid(ws) {
                    Some(id) => Ok(ModelView { physics_file_id: Some(id), ..m }),
                    None => Err(ParseError::Truncated),
                },
                None => Err(ParseError::Truncated),
            }
        }
    } else if c.tag == TAG_PHYS {
        if m.physics is Some {
            Err(ParseError::DuplicateChunk)
        } else {
            match dec_words(c.payload) {
                Some(ws) => match dec_word_list(ws) {
                    Some(s) => Ok(ModelView { physics: Some(s), ..m }),
                    None => Err(ParseError::Truncated),
                },
                None => Err(ParseError::Truncated),
            }
        }
    } else {
        if m.extensions is Some {
            Err(ParseError::DuplicateChunk)
        } else {
            match dec_words(c.payload) {
                Some(ws) => match dec_word_list(ws) {
                    Some(s) => Ok(ModelView { extensions: Some(s), ..m }),
                    None => Err(ParseError::Truncated),
                },
                None => Err(ParseError::Truncated),
            }
        }
    }
}

/// Folds a chunk record sequence into a model, left to right.
pub open spec fn spec_fold_chunks(m: ModelView, cs: Seq<RawChunkView>) -> Result<
    ModelView,
    ParseError,
>
    decreases cs.len(),
{
    if cs.len() == 0 {
        Ok(m)
    } else {
        match spec_apply_chunk(m, cs[0]) {
            Ok(m2) => spec_fold_chunks(m2, cs.drop_first()),
            Err(e) => Err(e),
        }
    }
}

/// The whole load: header, frames, fold.
pub open spec fn spec_parse_model(b: Seq<u8>) -> Result<ModelView, ParseError> {
    if b.len() < 8 {
        Err(ParseError::Truncated)
    } else if spec_u32_from_le_bytes(b.subrange(0, 4)) != MODEL_MAGIC {
        Err(ParseError::InvalidMagic)
    } else {
        match M2Version::spec_from_ordinal(spec_u32_from_le_bytes(b.subrange(4, 8))) {
            Some(ver) => match parse_frames(b.skip(8)) {
                Ok(cs) => spec_fold_chunks(spec_empty_model(ver), cs),
                Err(e) => Err(e),
            },
            None => Err(ParseError::UnknownVersion),
        }
    }
}

/// An optional chunk frame: nothing, or one record.
pub open spec fn opt_frame(tag: u32, payload: Option<Seq<u8>>) -> Seq<RawChunkView> {
    match payload {
        Some(p) => seq![RawChunkView { tag, payload: p }],
        None => Seq::empty(),
    }
}

/// The canonical chunk record order of a saved model: known slots in fixed
/// tag order, then unknown chunks in their stored order.
pub open spec fn spec_model_chunks(m: ModelView) -> Seq<RawChunkView> {
    opt_frame(
        TAG_BONE,
        match m.bones {
            Some(s) => Some(enc_words(enc_bones(s))),
            None => None,
        },
    ) + (opt_frame(
        TAG_SEQS,
        match m.sequences {
            Some(s) => Some(enc_words(enc_sequences(s, m.version))),
            None => None,
        },
    ) + (opt_frame(
        TAG_TEXS,
        match m.textures {
            Some(s) => Some(enc_words(enc_textures(s, m.version))),
            None => None,
        },
    ) + (opt_frame(
        TAG_MATL,
        match m.materials {
            Some(s) => Some(enc_words(enc_materials(s))),
            None => None,
        },
    ) + (opt_frame(
        TAG_ATCH,
        match m.attachments {
            Some(s) => Some(enc_words(enc_attachments(s))),
            None => None,
        },
    ) + (opt_frame(
        TAG_PFID,
        match m.physics_file_id {
            Some(id) => Some(enc_words(enc_pfid(id))),
            None => None,
        },
    ) + (opt_frame(
        TAG_PHYS,
        match m.physics {
            Some(s) => Some(enc_words(enc_word_list(s))),
            None => None,
        },
    ) + (opt_frame(
        TAG_EXPT,
        match m.extensions {
            Some(s) => Some(enc_words(enc_word_list(s))),
            None => None,
        },
    ) + m.unknown)))))))
}

/// The saved bytes of a model: magic, version ordinal, canonical frames.
pub open spec fn spec_model_bytes(m: ModelView) -> Seq<u8> {
    spec_u32_to_le_bytes(MODEL_MAGIC) + spec_u32_to_le_bytes(m.version.spec_ordinal() as u32)
        + frames_bytes(spec_model_chunks(m))
}

/// Structural well-formedness: every present slot is legal for the version
/// and within the layout's count limits, every required slot is present,
/// and unknown chunks carry no known tag and fit their size field.
pub open spec fn wf_model(m: ModelView) -> bool {
    &&& (m.bones is Some ==> m.bones->Some_0.len() <= 0x1FFFFFFF)
    &&& (m.sequences is Some ==> wf_sequences(m.sequences->Some_0, m.version))
    &&& (m.textures is Some ==> wf_textures(m.textures->Some_0, m.version))
    &&& (m.materials is Some ==> m.materials->Some_0.len() <= 0x1FFFFFFF)
    &&& (m.attachments is Some ==> m.attachments->Some_0.len() <= 0x1FFFFFFF)
    &&& (m.physics is Some ==> m.physics->Some_0.len() <= 0x3FFFFFFE)
    &&& (m.extensions is Some ==> m.extensions->Some_0.len() <= 0x3FFFFFFE)
    &&& (m.physics_file_id is Some ==> spec_chunk_legal(TAG_PFID, m.version))
    &&& (m.physics is Some ==> spec_chunk_legal(TAG_PHYS, m.version))
    &&& (m.extensions is Some ==> spec_chunk_legal(TAG_EXPT, m.version))
    &&& (forall|i: int|
        0 <= i < m.unknown.len() ==> !is_known_tag((#[trigger] m.unknown[i]).tag) && wf_chunk(
            m.unknown[i],
        ))
}

/// Re-association of a nine-part concatenation, from the built order to the
/// canonical nesting.
pub proof fn lemma_chain_assoc<A>(
    c1: Seq<A>, c2: Seq<A>, c3: Seq<A>, c4: Seq<A>, c5: Seq<A>, c6: Seq<A>, c7: Seq<A>,
    c8: Seq<A>, u: Seq<A>,
)
    ensures
        Seq::<A>::empty() + c1 + c2 + c3 + c4 + c5 + c6 + c7 + c8 + u == c1 + (c2 + (c3 + (c4 + (
        c5 + (c6 + (c7 + (c8 + u))))))),
{
    assert(Seq::<A>::empty() + c1 + c2 + c3 + c4 + c5 + c6 + c7 + c8 + u =~= c1 + (c2 + (c3 + (c4
        + (c5 + (c6 + (c7 + (c8 + u))))))));
}

/// A complete model: every chunk the version's rules require is present.
/// Loading does not enforce this; conversion to such a version does.
pub open spec fn spec_complete_model(m: ModelView) -> bool {
    &&& (spec_chunk_required(TAG_EXPT, m.version) ==> m.extensions is Some)
    &&& (spec_chunk_required(TAG_PHYS, m.version) ==> m.physics is Some)
}

/// Folding distributes over concatenation.
pub proof fn lemma_fold_append(m: ModelView, a: Seq<RawChunkView>, b: Seq<RawChunkView>)
    ensures
        spec_fold_chunks(m, a + b) == (match spec_fold_chunks(m, a) {
            Ok(m2) => spec_fold_chunks(m2, b),
            Err(e) => Err::<ModelView, ParseError>(e),
        }),
    decreases a.len(),
{
    if a.len() == 0 {
        assert(a + b =~= b);
    } else {
        assert((a + b)[0] == a[0]);
        match spec_apply_chunk(m, a[0]) {
            Ok(m2) => {
                assert((a + b).drop_first() =~= a.drop_first() + b);
                lemma_fold_append(m2, a.drop_first(), b);
            },
            Err(_) => {},
        }
    }
}

/// Folding one applicable chunk.
pub proof fn lemma_fold_one(m: ModelView, c: RawChunkView)
    ensures
        spec_fold_chunks(m, seq![c]) == (match spec_apply_chunk(m, c) {
            Ok(m2) => Ok::<ModelView, ParseError>(m2),
            Err(e) => Err::<ModelView, ParseError>(e),
        }),
{
    let s = seq![c];
    assert(s[0] == c);
    assert(s.drop_first() =~= Seq::<RawChunkView>::empty());
    match spec_apply_chunk(m, c) {
        Ok(m2) => {
            assert(spec_fold_chunks(m2, s.drop_first()) == Ok::<ModelView, ParseError>(m2));
        },
        Err(_) => {},
    }
}

/// Folding a run of unknown-tagged chunks appends them in order.
pub proof fn lemma_fold_unknown(m: ModelView, us: Seq<RawChunkView>)
    requires
        forall|i: int| 0 <= i < us.len() ==> !is_known_tag((#[trigger] us[i]).tag),
    ensures
        spec_fold_chunks(m, us) == Ok::<ModelView, ParseError>(
            ModelView { unknown: m.unknown + us, ..m },
        ),
    decreases us.len(),
{
    if us.len() == 0 {
        assert(m.unknown + us =~= m.unknown);
        assert(ModelView { unknown: m.unknown + us, ..m } =~= m);
    } else {
        let m2 = ModelView { unknown: m.unknown.push(us[0]), ..m };
        lemma_fold_unknown(m2, us.drop_first());
        assert(m2.unknown + us.drop_first() =~= m.unknown + us);
        assert(ModelView { unknown: m2.unknown + us.drop_first(), ..m2 } =~= ModelView {
            unknown: m.unknown + us,
            ..m
        });
    }
}

/// Every chunk of `a + b` fits its size field if those of `a` and `b` do.
pub proof fn lemma_wf_chunks_concat(a: Seq<RawChunkView>, b: Seq<RawChunkView>)
    requires
        forall|i: int| 0 <= i < a.len() ==> wf_chunk(#[trigger] a[i]),
        forall|i: int| 0 <= i < b.len() ==> wf_chunk(#[trigger] b[i]),
    ensures
        forall|i: int| 0 <= i < (a + b).len() ==> wf_chunk(#[trigger] (a + b)[i]),
{
}

/// Folding the canonical frames of a well-formed model rebuilds the model.
#[verifier::rlimit(60)]
pub proof fn lemma_fold_canonical(m: ModelView)
    requires
        wf_model(m),
    ensures
        spec_fold_chunks(spec_empty_model(m.version), spec_model_chunks(m)) == Ok::<
            ModelView,
            ParseError,
        >(m),
{
    let c1 = opt_frame(
        TAG_BONE,
        match m.bones {
            Some(s) => Some(enc_words(enc_bones(s))),
            None => None,
        },
    );
    let c2 = opt_frame(
        TAG_SEQS,
        match m.sequences {
            Some(s) => Some(enc_words(enc_sequences(s, m.version))),
            None => None,
        },
    );
    let c3 = opt_frame(
        TAG_TEXS,
        match m.textures {
            Some(s) => Some(enc_words(enc_textures(s, m.version))),
            None => None,
        },
    );
    let c4 = opt_frame(
        TAG_MATL,
        match m.materials {
            Some(s) => Some(enc_words(enc_materials(s))),
            None => None,
        },
    );
    let c5 = opt_frame(
        TAG_ATCH,
        match m.attachments {
            Some(s) => Some(enc_words(enc_attachments(s))),
            None => None,
        },
    );
    let c6 = opt_frame(
        TAG_PFID,
        match m.physics_file_id {
            Some(id) => Some(enc_words(enc_pfid(id))),
            None => None,
        },
    );
    let c7 = opt_frame(
        TAG_PHYS,
        match m.physics {
            Some(s) => Some(enc_words(enc_word_list(s))),
            None => None,
        },
    );
    let c8 = opt_frame(
        TAG_EXPT,
        match m.extensions {
            Some(s) => Some(enc_words(enc_word_list(s))),
            None => None,
        },
    );
    let m0 = spec_empty_model(m.version);
    let m1 = ModelView { bones: m.bones, ..m0 };
    let m2 = ModelView { sequences: m.sequences, ..m1 };
    let m3 = ModelView { textures: m.textures, ..m2 };
    let m4 = ModelView { materials: m.materials, ..m3 };
    let m5 = ModelView { attachments: m.attachments, ..m4 };
    let m6 = ModelView { physics_file_id: m.physics_file_id, ..m5 };
    let m7 = ModelView { physics: m.physics, ..m6 };
    let m8 = ModelView { extensions: m.extensions, ..m7 };

    lemma_fold_slot_bones(m0, m);
    lemma_fold_slot_seqs(m1, m);
    lemma_fold_slot_texs(m2, m);
    lemma_fold_slot_matl(m3, m);
    lemma_fold_slot_atch(m4, m);
    lemma_fold_slot_pfid(m5, m);
    lemma_fold_slot_phys(m6, m);
    lemma_fold_slot_expt(m7, m);
    lemma_fold_unknown(m8, m.unknown);
    assert(ModelView { unknown: m8.unknown + m.unknown, ..m8 } =~= m);

    lemma_fold_append(m0, c1, c2 + (c3 + (c4 + (c5 + (c6 + (c7 + (c8 + m.unknown)))))));
    lemma_fold_append(m1, c2, c3 + (c4 + (c5 + (c6 + (c7 + (c8 + m.unknown))))));
    lemma_fold_append(m2, c3, c4 + (c5 + (c6 + (c7 + (c8 + m.unknown)))));
    lemma_fold_append(m3, c4, c5 + (c6 + (c7 + (c8 + m.unknown))));
    lemma_fold_append(m4, c5, c6 + (c7 + (c8 + m.unknown)));
    lemma_fold_append(m5, c6, c7 + (c8 + m.unknown));
    lemma_fold_append(m6, c7, c8 + m.unknown);
    lemma_fold_append(m7, c8, m.unknown);
}

/// Every canonical frame of a well-formed model fits its size field.
#[verifier::rlimit(60)]
pub proof fn lemma_wf_model_chunks(m: ModelView)
    requires
        wf_model(m),
    ensures
        forall|i: int|
            0 <= i < spec_model_chunks(m).len() ==> wf_chunk(#[trigger] spec_model_chunks(m)[i]),
{
    let c1 = opt_frame(
        TAG_BONE,
        match m.bones {
            Some(s) => Some(enc_words(enc_bones(s))),
            None => None,
        },
    );
    let c2 = opt_frame(
        TAG_SEQS,
        match m.sequences {
            Some(s) => Some(enc_words(enc_sequences(s, m.version))),
            None => None,
        },
    );
    let c3 = opt_frame(
        TAG_TEXS,
        match m.textures {
            Some(s) => Some(enc_words(enc_textures(s, m.version))),
            None => None,
        },
    );
    let c4 = opt_frame(
        TAG_MATL,
        match m.materials {
            Some(s) => Some(enc_words(enc_materials(s))),
            None => None,
        },
    );
    let c5 = opt_frame(
        TAG_ATCH,
        match m.attachments {
            Some(s) => Some(enc_words(enc_attachments(s))),
            None => None,
        },
    );
    let c6 = opt_frame(
        TAG_PFID,
        match m.physics_file_id {
            Some(id) => Some(enc_words(enc_pfid(id))),
            None => None,
        },
    );
    let c7 = opt_frame(
        TAG_PHYS,
        match m.physics {
            Some(s) => Some(enc_words(enc_word_list(s))),
            None => None,
        },
    );
    let c8 = opt_frame(
        TAG_EXPT,
        match m.extensions {
            Some(s) => Some(enc_words(enc_word_list(s))),
            None => None,
        },
    );
    if m.bones is Some {
        lemma_enc_words_len(enc_bones(m.bones->Some_0));
    }
    if m.sequences is Some {
        lemma_enc_words_len(enc_sequences(m.sequences->Some_0, m.version));
    }
    if m.textures is Some {
        lemma_enc_words_len(enc_textures(m.textures->Some_0, m.version));
    }
    if m.materials is Some {
        lemma_enc_words_len(enc_materials(m.materials->Some_0));
    }
    if m.attachments is Some {
        lemma_enc_words_len(enc_attachments(m.attachments->Some_0));
    }
    if m.physics_file_id is Some {
        lemma_enc_words_len(enc_pfid(m.physics_file_id->Some_0));
    }
    if m.physics is Some {
        lemma_enc_words_len(enc_word_list(m.physics->Some_0));
    }
    if m.extensions is Some {
        lemma_enc_words_len(enc_word_list(m.extensions->Some_0));
    }
    lemma_wf_chunks_concat(c8, m.unknown);
    lemma_wf_chunks_concat(c7, c8 + m.unknown);
    lemma_wf_chunks_concat(c6, c7 + (c8 + m.unknown));
    lemma_wf_chunks_concat(c5, c6 + (c7 + (c8 + m.unknown)));
    lemma_wf_chunks_concat(c4, c5 + (c6 + (c7 + (c8 + m.unknown))));
    lemma_wf_chunks_concat(c3, c4 + (c5 + (c6 + (c7 + (c8 + m.unknown)))));
    lemma_wf_chunks_concat(c2, c3 + (c4 + (c5 + (c6 + (c7 + (c8 + m.unknown))))));
    lemma_wf_chunks_concat(c1, c2 + (c3 + (c4 + (c5 + (c6 + (c7 + (c8 + m.unknown)))))));
}

/// Round trip: loading the saved bytes of a well-formed model yields the
/// model again.
#[verifier::rlimit(60)]
pub proof fn lemma_model_roundtrip(m: ModelView)
    requires
        wf_model(m),
    ensures
        spec_parse_model(spec_model_bytes(m)) == Ok::<ModelView, ParseError>(m),
{
    lemma_auto_spec_u32_to_from_le_bytes();
    let b = spec_model_bytes(m);
    let cs = spec_model_chunks(m);
    assert(b.subrange(0, 4) =~= spec_u32_to_le_bytes(MODEL_MAGIC));
    assert(b.subrange(4, 8) =~= spec_u32_to_le_bytes(m.version.spec_ordinal() as u32));
    assert(M2Version::spec_from_ordinal(m.version.spec_ordinal() as u32) == Some(m.version));
    assert(b.skip(8) =~= frames_bytes(cs));
    lemma_wf_model_chunks(m);
    crate::reader::lemma_frames_roundtrip(cs);
    lemma_fold_canonical(m);
}

/// Folding the bone slot's frames moves the slot across.
proof fn lemma_fold_slot_bones(cur: ModelView, m: ModelView)
    requires
        wf_model(m),
        cur.bones is None,
        cur.version == m.version,
    ensures
        spec_fold_chunks(
            cur,
            opt_frame(
                TAG_BONE,
                match m.bones {
                    Some(s) => Some(enc_words(enc_bones(s))),
                    None => None,
                },
            ),
        ) == Ok::<ModelView, ParseError>(ModelView { bones: m.bones, ..cur }),
{
    match m.bones {
        None => {
            assert(ModelView { bones: m.bones, ..cur } =~= cur);
        },
        Some(s) => {
            let c = RawChunkView { tag: TAG_BONE, payload: enc_words(enc_bones(s)) };
            lemma_words_roundtrip(enc_bones(s));
            crate::chunks::lemma_bones_roundtrip(s);
            lemma_fold_one(cur, c);
        },
    }
}

proof fn lemma_fold_slot_seqs(cur: ModelView, m: ModelView)
    requires
        wf_model(m),
        cur.sequences is None,
        cur.version == m.version,
    ensures
        spec_fold_chunks(
            cur,
            opt_frame(
                TAG_SEQS,
                match m.sequences {
                    Some(s) => Some(enc_words(enc_sequences(s, m.version))),
                    None => None,
                },
            ),
        ) == Ok::<ModelView, ParseError>(ModelView { sequences: m.sequences, ..cur }),
{
    match m.sequences {
        None => {
            assert(ModelView { sequences: m.sequences, ..cur } =~= cur);
        },
        Some(s) => {
            let c = RawChunkView { tag: TAG_SEQS, payload: enc_words(enc_sequences(s, m.version)) };
            lemma_words_roundtrip(enc_sequences(s, m.version));
            crate::chunks::lemma_sequences_roundtrip(s, m.version);
            lemma_fold_one(cur, c);
        },
    }
}

proof fn lemma_fold_slot_texs(cur: ModelView, m: ModelView)
    requires
        wf_model(m),
        cur.textures is None,
        cur.version == m.version,
    ensures
        spec_fold_chunks(
            cur,
            opt_frame(
                TAG_TEXS,
                match m.textures {
                    Some(s) => Some(enc_words(enc_textures(s, m.version))),
                    None => None,
                },
            ),
        ) == Ok::<ModelView, ParseError>(ModelView { textures: m.textures, ..cur }),
{
    match m.textures {
        None => {
            assert(ModelView { textures: m.textures, ..cur } =~= cur);
        },
        Some(s) => {
            let c = RawChunkView { tag: TAG_TEXS, payload: enc_words(enc_textures(s, m.version)) };
            lemma_words_roundtrip(enc_textures(s, m.version));
            crate::chunks::lemma_textures_roundtrip(s, m.version);
            lemma_fold_one(cur, c);
        },
    }
}

proof fn lemma_fold_slot_matl(cur: ModelView, m: ModelView)
    requires
        wf_model(m),
        cur.materials is None,
        cur.version == m.version,
    ensures
        spec_fold_chunks(
            cur,
            opt_frame(
                TAG_MATL,
                match m.materials {
                    Some(s) => Some(enc_words(enc_materials(s))),
                    None => None,
                },
            ),
        ) == Ok::<ModelView, ParseError>(ModelView { materials: m.materials, ..cur }),
{
    match m.materials {
        None => {
            assert(ModelView { materials: m.materials, ..cur } =~= cur);
        },
        Some(s) => {
            let c = RawChunkView { tag: TAG_MATL, payload: enc_words(enc_materials(s)) };
            lemma_words_roundtrip(enc_materials(s));
            crate::chunks::lemma_materials_roundtrip(s);
            lemma_fold_one(cur, c);
        },
    }
}

proof fn lemma_fold_slot_atch(cur: ModelView, m: ModelView)
    requires
        wf_model(m),
        cur.attachments is None,
        cur.version == m.version,
    ensures
        spec_fold_chunks(
            cur,
            opt_frame(
                TAG_ATCH,
                match m.attachments {
                    Some(s) => Some(enc_words(enc_attachments(s))),
                    None => None,
                },
            ),
        ) == Ok::<ModelView, ParseError>(ModelView { attachments: m.attachments, ..cur }),
{
    match m.attachments {
        None => {
            assert(ModelView { attachments: m.attachments, ..cur } =~= cur);
        },
        Some(s) => {
            let c = RawChunkView { tag: TAG_ATCH, payload: enc_words(enc_attachments(s)) };
            lemma_words_roundtrip(enc_attachments(s));
            crate::chunks::lemma_attachments_roundtrip(s);
            lemma_fold_one(cur, c);
        },
    }
}

proof fn lemma_fold_slot_pfid(cur: ModelView, m: ModelView)
    requires
        wf_model(m),
        cur.physics_file_id is None,
        cur.version == m.version,
    ensures
        spec_fold_chunks(
            cur,
            opt_frame(
                TAG_PFID,
                match m.physics_file_id {
                    Some(id) => Some(enc_words(enc_pfid(id))),
                    None => None,
                },
            ),
        ) == Ok::<ModelView, ParseError>(
            ModelView { physics_file_id: m.physics_file_id, ..cur },
        ),
{
    match m.physics_file_id {
        None => {
            assert(ModelView { physics_file_id: m.physics_file_id, ..cur } =~= cur);
        },
        Some(id) => {
            let c = RawChunkView { tag: TAG_PFID, payload: enc_words(enc_pfid(id)) };
            lemma_words_roundtrip(enc_pfid(id));
            lemma_fold_one(cur, c);
        },
    }
}

proof fn lemma_fold_slot_phys(cur: ModelView, m: ModelView)
    requires
        wf_model(m),
        cur.physics is None,
        cur.version == m.version,
    ensures
        spec_fold_chunks(
            cur,
            opt_frame(
                TAG_PHYS,
                match m.physics {
                    Some(s) => Some(enc_words(enc_word_list(s))),
                    None => None,
                },
            ),
        ) == Ok::<ModelView, ParseError>(ModelView { physics: m.physics, ..cur }),
{
    match m.physics {
        None => {
            assert(ModelView { physics: m.physics, ..cur } =~= cur);
        },
        Some(s) => {
            let c = RawChunkView { tag: TAG_PHYS, payload: enc_words(enc_word_list(s)) };
            lemma_words_roundtrip(enc_word_list(s));
            crate::chunks::lemma_word_list_roundtrip(s);
            lemma_fold_one(cur, c);
        },
    }
}

proof fn lemma_fold_slot_expt(cur: ModelView, m: ModelView)
    requires
        wf_model(m),
        cur.extensions is None,
        cur.version == m.version,
    ensures
        spec_fold_chunks(
            cur,
            opt_frame(
                TAG_EXPT,
                match m.extensions {
                    Some(s) => Some(enc_words(enc_word_list(s))),
                    None => None,
                },
            ),
        ) == Ok::<ModelView, ParseError>(ModelView { extensions: m.extensions, ..cur }),
{
    match m.extensions {
        None => {
            assert(ModelView { extensions: m.extensions, ..cur } =~= cur);
        },
        Some(s) => {
            let c = RawChunkView { tag: TAG_EXPT, payload: enc_words(enc_word_list(s)) };
            lemma_words_roundtrip(enc_word_list(s));
            crate::chunks::lemma_word_list_roundtrip(s);
            lemma_fold_one(cur, c);
        },
    }
}


impl M2Model {
    /// Decodes a model from a byte buffer: fixed header, then chunk frames,
    /// each dispatched to its codec under the declared version.
    pub fn load(bytes: &[u8]) -> (r: Result<M2Model, ParseError>)
        ensures
            match r {
                Ok(m) => spec_parse_model(bytes@) == Ok::<ModelView, ParseError>(m@),
                Err(e) => spec_parse_model(bytes@) == Err::<ModelView, ParseError>(e),
            },
    {
        if bytes.len() < 8 {
            return Err(ParseError::Truncated);
        }
        let magic = u32_from_le_bytes(slice_subrange(bytes, 0, 4));
        if magic != MODEL_MAGIC {
            return Err(ParseError::InvalidMagic);
        }
        let vword = u32_from_le_bytes(slice_subrange(bytes, 4, 8));
        let ver = match M2Version::from_ordinal(vword) {
            Some(v) => v,
            None => {
                return Err(ParseError::UnknownVersion);
            },
        };
        let rest = slice_subrange(bytes, 8, bytes.len());
        proof {
            assert(rest@ =~= bytes@.skip(8));
        }
        let chunks = match read_chunks(rest) {
            Ok(cs) => cs,
            Err(e) => {
                return Err(e);
            },
        };
        let ghost all = crate::reader::chunks_view(chunks@);
        let mut model = M2Model {
            version: ver,
            bones: None,
            sequences: None,
            textures: None,
            materials: None,
            attachments: None,
            physics_file_id: None,
            physics: None,
            extensions: None,
            unknown: Vec::new(),
        };
        proof {
            assert(model@ =~= spec_empty_model(ver));
            assert(all.skip(0) =~= all);
        }
        let n = chunks.len();
        let mut i: usize = 0;
        while i < n
            invariant
                n == chunks@.len(),
                i <= n,
                all == crate::reader::chunks_view(chunks@),
                model@.version == ver,
                spec_parse_model(bytes@) == spec_fold_chunks(model@, all.skip(i as int)),
            decreases n - i,
        {
            let c = &chunks[i];
            let ghost cv = c@;
            let ghost pre = model@;
            proof {
                assert(all[i as int] == cv);
                assert(all.skip(i as int)[0] == cv);
                assert(all.skip(i as int).drop_first() =~= all.skip(i as int + 1));
            }
            let tag = c.tag;
            if !crate::chunks::known_tag(tag) {
                let payload = slice_to_vec(c.payload.as_slice());
                model.unknown.push(RawChunk { tag, payload });
                proof {
                    assert(crate::reader::chunks_view(model.unknown@) =~= pre.unknown.push(cv));
                    assert(model@ =~= (ModelView { unknown: pre.unknown.push(cv), ..pre }));
                }
            } else if !chunk_legal(tag, model.version) {
                return Err(ParseError::IllegalChunkForVersion);
            } else {
                if tag == TAG_BONE {
                    if model.bones.is_some() {
                        return Err(ParseError::DuplicateChunk);
                    }
                    let ws = match decode_words(c.payload.as_slice()) {
                        Some(ws) => ws,
                        None => {
                            return Err(ParseError::Truncated);
                        },
                    };
                    let s = match decode_bones_words(&ws) {
                        Some(s) => s,
                        None => {
                            return Err(ParseError::Truncated);
                        },
                    };
                    model.bones = Some(s);
                    proof {
                        assert(model@ =~= (ModelView { bones: model@.bones, ..pre }));
                    }
                } else if tag == TAG_SEQS {
                    if model.sequences.is_some() {
                        return Err(ParseError::DuplicateChunk);
                    }
                    let ws = match decode_words(c.payload.as_slice()) {
                        Some(ws) => ws,
                        None => {
                            return Err(ParseError::Truncated);
                        },
                    };
                    let s = match decode_sequences_words(&ws, model.version) {
                        Some(s) => s,
                        None => {
                            return Err(ParseError::Truncated);
                        },
                    };
                    model.sequences = Some(s);
                    proof {
                        assert(model@ =~= (ModelView { sequences: model@.sequences, ..pre }));
                    }
                } else if tag == TAG_TEXS {
                    if model.textures.is_some() {
                        return Err(ParseError::DuplicateChunk);
                    }
                    let ws = match decode_words(c.payload.as_slice()) {
                        Some(ws) => ws,
                        None => {
                            return Err(ParseError::Truncated);
                        },
                    };
                    let s = match decode_textures_words(&ws, model.version) {
                        Some(s) => s,
                        None => {
                            return Err(ParseError::Truncated);
                        },
                    };
                    model.textures = Some(s);
                    proof {
                        assert(model@ =~= (ModelView { textures: model@.textures, ..pre }));
                    }
                } else if tag == TAG_MATL {
                    if model.materials.is_some() {
                        return Err(ParseError::DuplicateChunk);
                    }
                    let ws = match decode_words(c.payload.as_slice()) {
                        Some(ws) => ws,
                        None => {
                            return Err(ParseError::Truncated);
                        },
                    };
                    let s = match decode_materials_words(&ws) {
                        Some(s) => s,
                        None => {
                            return Err(ParseError::Truncated);
                        },
                    };
                    model.materials = Some(s);
                    proof {
                        assert(model@ =~= (ModelView { materials: model@.materials, ..pre }));
                    }
                } else if tag == TAG_ATCH {
                    if model.attachments.is_some() {
                        return Err(ParseError::DuplicateChunk);
                    }
                    let ws = match decode_words(c.payload.as_slice()) {
                        Some(ws) => ws,
                        None => {
                            return Err(ParseError::Truncated);
                        },
                    };
                    let s = match decode_attachments_words(&ws) {
                        Some(s) => s,
                        None => {
                            return Err(ParseError::Truncated);
                        },
                    };
                    model.attachments = Some(s);
                    proof {
                        assert(model@ =~= (ModelView { attachments: model@.attachments, ..pre }));
                    }
                } else if tag == TAG_PFID {
                    if model.physics_file_id.is_some() {
                        return Err(ParseError::DuplicateChunk);
                    }
                    let ws = match decode_words(c.payload.as_slice()) {
                        Some(ws) => ws,
                        None => {
                            return Err(ParseError::Truncated);
                        },
                    };
                    if ws.len() != 1 {
                        return Err(ParseError::Truncated);
                    }
                    model.physics_file_id = Some(ws[0]);
                    proof {
                        assert(model@ =~= (ModelView {
                            physics_file_id: model@.physics_file_id,
                            ..pre
                        }));
                    }
                } else if tag == TAG_PHYS {
                    if model.physics.is_some() {
                        return Err(ParseError::DuplicateChunk);
                    }
                    let ws = match decode_words(c.payload.as_slice()) {
                        Some(ws) => ws,
                        None => {
                            return Err(ParseError::Truncated);
                        },
                    };
                    let s = match decode_word_list(&ws) {
                        Some(s) => s,
                        None => {
                            return Err(ParseError::Truncated);
                        },
                    };
                    model.physics = Some(s);
                    proof {
                        assert(model@ =~= (ModelView { physics: model@.physics, ..pre }));
                    }
                } else {
                    if model.extensions.is_some() {
                        return Err(ParseError::DuplicateChunk);
                    }
                    let ws = match decode_words(c.payload.as_slice()) {
                        Some(ws) => ws,
                        None => {
                            return Err(ParseError::Truncated);
                        },
                    };
                    let s = match decode_word_list(&ws) {
                        Some(s) => s,
                        None => {
                            return Err(ParseError::Truncated);
                        },
                    };
                    model.extensions = Some(s);
                    proof {
                        assert(model@ =~= (ModelView { extensions: model@.extensions, ..pre }));
                    }
                }
            }
            proof {
                assert(spec_apply_chunk(pre, cv) == Ok::<ModelView, ParseError>(model@));
            }
            i = i + 1;
        }
        proof {
            assert(all.skip(n as int) =~= Seq::<RawChunkView>::empty());
        }
        Ok(model)
    }

    /// Encodes the model: magic, version ordinal, then every chunk in the
    /// canonical tag order, unknown chunks last in their stored order.
    #[verifier::rlimit(100)]
    #[verifier::spinoff_prover]
    pub fn save(&self) -> (out: Vec<u8>)
        requires
            wf_model(self@),
        ensures
            out@ == spec_model_bytes(self@),
    {
        let ghost mv = self@;
        let mut out: Vec<u8> = Vec::new();
        push_word(&mut out, MODEL_MAGIC);
        push_word(&mut out, self.version.ordinal());
        let ghost hdr = out@;
        let ghost mut done: Seq<RawChunkView> = Seq::empty();
        proof {
            assert(out@ =~= hdr + frames_bytes(done));
        }
        let ghost ck1 = opt_frame(
            TAG_BONE,
            match mv.bones {
                Some(s) => Some(enc_words(enc_bones(s))),
                None => None,
            },
        );
        let ghost ck2 = opt_frame(
            TAG_SEQS,
            match mv.sequences {
                Some(s) => Some(enc_words(enc_sequences(s, mv.version))),
                None => None,
            },
        );
        let ghost ck3 = opt_frame(
            TAG_TEXS,
            match mv.textures {
                Some(s) => Some(enc_words(enc_textures(s, mv.version))),
                None => None,
            },
        );
        let ghost ck4 = opt_frame(
            TAG_MATL,
            match mv.materials {
                Some(s) => Some(enc_words(enc_materials(s))),
                None => None,
            },
        );
        let ghost ck5 = opt_frame(
            TAG_ATCH,
            match mv.attachments {
                Some(s) => Some(enc_words(enc_attachments(s))),
                None => None,
            },
        );
        let ghost ck6 = opt_frame(
            TAG_PFID,
            match mv.physics_file_id {
                Some(id) => Some(enc_words(enc_pfid(id))),
                None => None,
            },
        );
        let ghost ck7 = opt_frame(
            TAG_PHYS,
            match mv.physics {
                Some(s) => Some(enc_words(enc_word_list(s))),
                None => None,
            },
        );
        let ghost ck8 = opt_frame(
            TAG_EXPT,
            match mv.extensions {
                Some(s) => Some(enc_words(enc_word_list(s))),
                None => None,
            },
        );
        self.write_slot_bones(&mut out);
        proof {
            crate::reader::lemma_frames_concat(done, ck1);
            vstd::seq_lib::lemma_concat_associative(hdr, frames_bytes(done), frames_bytes(ck1));
            done = done + ck1;
        }
        self.write_slot_sequences(&mut out);
        proof {
            crate::reader::lemma_frames_concat(done, ck2);
            vstd::seq_lib::lemma_concat_associative(hdr, frames_bytes(done), frames_bytes(ck2));
            done = done + ck2;
        }
        self.write_slot_textures(&mut out);
        proof {
            crate::reader::lemma_frames_concat(done, ck3);
            vstd::seq_lib::lemma_concat_associative(hdr, frames_bytes(done), frames_bytes(ck3));
            done = done + ck3;
        }
        self.write_slot_materials(&mut out);
        proof {
            crate::reader::lemma_frames_concat(done, ck4);
            vstd::seq_lib::lemma_concat_associative(hdr, frames_bytes(done), frames_bytes(ck4));
            done = done + ck4;
        }
        self.write_slot_attachments(&mut out);
        proof {
            crate::reader::lemma_frames_concat(done, ck5);
            vstd::seq_lib::lemma_concat_associative(hdr, frames_bytes(done), frames_bytes(ck5));
            done = done + ck5;
        }
        self.write_slot_pfid(&mut out);
        proof {
            crate::reader::lemma_frames_concat(done, ck6);
            vstd::seq_lib::lemma_concat_associative(hdr, frames_bytes(done), frames_bytes(ck6));
            done = done + ck6;
        }
        self.write_slot_physics(&mut out);
        proof {
            crate::reader::lemma_frames_concat(done, ck7);
            vstd::seq_lib::lemma_concat_associative(hdr, frames_bytes(done), frames_bytes(ck7));
            done = done + ck7;
        }
        self.write_slot_extensions(&mut out);
        proof {
            crate::reader::lemma_frames_concat(done, ck8);
            vstd::seq_lib::lemma_concat_associative(hdr, frames_bytes(done), frames_bytes(ck8));
            done = done + ck8;
        }
        let ghost base = done;
        let mut i: usize = 0;
        while i < self.unknown.len()
            invariant
                wf_model(self@),
                i <= self.unknown@.len(),
                done == base + crate::reader::chunks_view(self.unknown@).take(i as int),
                out@ == hdr + frames_bytes(done),
            decreases self.unknown@.len() - i,
        {
            let u = &self.unknown[i];
            proof {
                assert(self@.unknown[i as int] == u@);
                assert(wf_chunk(u@));
            }
            write_chunk(&mut out, u.tag, &u.payload);
            proof {
                let c = u@;
                crate::reader::lemma_frames_concat(done, seq![c]);
                crate::reader::lemma_frames_single(c);
                vstd::seq_lib::lemma_concat_associative(hdr, frames_bytes(done), frame_bytes(c));
                done = done + seq![c];
                assert(done =~= base + crate::reader::chunks_view(self.unknown@).take(
                    i as int + 1,
                ));
            }
            i = i + 1;
        }
        proof {
            let u = mv.unknown;
            assert(crate::reader::chunks_view(self.unknown@).take(self.unknown@.len() as int)
                =~= u);
            lemma_chain_assoc(ck1, ck2, ck3, ck4, ck5, ck6, ck7, ck8, u);
            assert(hdr =~= spec_u32_to_le_bytes(MODEL_MAGIC) + spec_u32_to_le_bytes(
                mv.version.spec_ordinal() as u32,
            ));
            assert(out@ =~= spec_model_bytes(mv));
        }
        out
    }

    /// Appends this slot's frame, if the slot is filled.
    fn write_slot_bones(&self, out: &mut Vec<u8>)
        requires
            wf_model(self@),
        ensures
            final(out)@ == old(out)@ + frames_bytes(
                opt_frame(
                    TAG_BONE,
                    match self@.bones {
                        Some(s) => Some(enc_words(enc_bones(s))),
                        None => None,
                    },
                ),
            ),
    {
        let ghost mv = self@;
        let ghost ck = opt_frame(
            TAG_BONE,
            match mv.bones {
                Some(s) => Some(enc_words(enc_bones(s))),
                None => None,
            },
        );
        match &self.bones {
            Some(v) => {
                let ws = encode_bones_words(v);
                let p = encode_words(&ws);
                proof {
                    lemma_enc_words_len(ws@);
                }
                write_chunk(out, TAG_BONE, &p);
                proof {
                    let c = RawChunkView { tag: TAG_BONE, payload: p@ };
                    assert(ck =~= seq![c]);
                    crate::reader::lemma_frames_single(c);
                }
            },
            None => {
                proof {
                    assert(ck =~= Seq::<RawChunkView>::empty());
                    assert(out@ + frames_bytes(ck) =~= out@);
                }
            },
        }
    }

    /// Appends this slot's frame, if the slot is filled.
    fn write_slot_sequences(&self, out: &mut Vec<u8>)
        requires
            wf_model(self@),
        ensures
            final(out)@ == old(out)@ + frames_bytes(
                opt_frame(
                    TAG_SEQS,
                    match self@.sequences {
                        Some(s) => Some(enc_words(enc_sequences(s, self@.version))),
                        None => None,
                    },
                ),
            ),
    {
        let ghost mv = self@;
        let ghost ck = opt_frame(
            TAG_SEQS,
            match mv.sequences {
                Some(s) => Some(enc_words(enc_sequences(s, mv.version))),
                None => None,
            },
        );
        match &self.sequences {
            Some(v) => {
                let ws = encode_sequences_words(v, self.version);
                let p = encode_words(&ws);
                proof {
                    lemma_enc_words_len(ws@);
                }
                write_chunk(out, TAG_SEQS, &p);
                proof {
                    let c = RawChunkView { tag: TAG_SEQS, payload: p@ };
                    assert(ck =~= seq![c]);
                    crate::reader::lemma_frames_single(c);
                }
            },
            None => {
                proof {
                    assert(ck =~= Seq::<RawChunkView>::empty());
                    assert(out@ + frames_bytes(ck) =~= out@);
                }
            },
        }
    }

    /// Appends this slot's frame, if the slot is filled.
    fn write_slot_textures(&self, out: &mut Vec<u8>)
        requires
            wf_model(self@),
        ensures
            final(out)@ == old(out)@ + frames_bytes(
                opt_frame(
                    TAG_TEXS,
                    match self@.textures {
                        Some(s) => Some(enc_words(enc_textures(s, self@.version))),
                        None => None,
                    },
                ),
            ),
    {
        let ghost mv = self@;
        let ghost ck = opt_frame(
            TAG_TEXS,
            match mv.textures {
                Some(s) => Some(enc_words(enc_textures(s, mv.version))),
                None => None,
            },
        );
        match &self.textures {
            Some(v) => {
                let ws = encode_textures_words(v, self.version);
                let p = encode_words(&ws);
                proof {
                    lemma_enc_words_len(ws@);
                }
                write_chunk(out, TAG_TEXS, &p);
                proof {
                    let c = RawChunkView { tag: TAG_TEXS, payload: p@ };
                    assert(ck =~= seq![c]);
                    crate::reader::lemma_frames_single(c);
                }
            },
            None => {
                proof {
                    assert(ck =~= Seq::<RawChunkView>::empty());
                    assert(out@ + frames_bytes(ck) =~= out@);
                }
            },
        }
    }

    /// Appends this slot's frame, if the slot is filled.
    fn write_slot_materials(&self, out: &mut Vec<u8>)
        requires
            wf_model(self@),
        ensures
            final(out)@ == old(out)@ + frames_bytes(
                opt_frame(
                    TAG_MATL,
                    match self@.materials {
                        Some(s) => Some(enc_words(enc_materials(s))),
                        None => None,
                    },
                ),
            ),
    {
        let ghost mv = self@;
        let ghost ck = opt_frame(
            TAG_MATL,
            match mv.materials {
                Some(s) => Some(enc_words(enc_materials(s))),
                None => None,
            },
        );
        match &self.materials {
            Some(v) => {
                let ws = encode_materials_words(v);
                let p = encode_words(&ws);
                proof {
                    lemma_enc_words_len(ws@);
                }
                write_chunk(out, TAG_MATL, &p);
                proof {
                    let c = RawChunkView { tag: TAG_MATL, payload: p@ };
                    assert(ck =~= seq![c]);
                    crate::reader::lemma_frames_single(c);
                }
            },
            None => {
                proof {
                    assert(ck =~= Seq::<RawChunkView>::empty());
                    assert(out@ + frames_bytes(ck) =~= out@);
                }
            },
        }
    }

    /// Appends this slot's frame, if the slot is filled.
    fn write_slot_attachments(&self, out: &mut Vec<u8>)
        requires
            wf_model(self@),
        ensures
            final(out)@ == old(out)@ + frames_bytes(
                opt_frame(
                    TAG_ATCH,
                    match self@.attachments {
                        Some(s) => Some(enc_words(enc_attachments(s))),
                        None => None,
                    },
                ),
            ),
    {
        let ghost mv = self@;
        let ghost ck = opt_frame(
            TAG_ATCH,
            match mv.attachments {
                Some(s) => Some(enc_words(enc_attachments(s))),
                None => None,
            },
        );
        match &self.attachments {
            Some(v) => {
                let ws = encode_attachments_words(v);
                let p = encode_words(&ws);
                proof {
                    lemma_enc_words_len(ws@);
                }
                write_chunk(out, TAG_ATCH, &p);
                proof {
                    let c = RawChunkView { tag: TAG_ATCH, payload: p@ };
                    assert(ck =~= seq![c]);
                    crate::reader::lemma_frames_single(c);
                }
            },
            None => {
                proof {
                    assert(ck =~= Seq::<RawChunkView>::empty());
                    assert(out@ + frames_bytes(ck) =~= out@);
                }
            },
        }
    }

    /// Appends this slot's frame, if the slot is filled.
    fn write_slot_physics(&self, out: &mut Vec<u8>)
        requires
            wf_model(self@),
        ensures
            final(out)@ == old(out)@ + frames_bytes(
                opt_frame(
                    TAG_PHYS,
                    match self@.physics {
                        Some(s) => Some(enc_words(enc_word_list(s))),
                        None => None,
                    },
                ),
            ),
    {
        let ghost mv = self@;
        let ghost ck = opt_frame(
            TAG_PHYS,
            match mv.physics {
                Some(s) => Some(enc_words(enc_word_list(s))),
                None => None,
            },
        );
        match &self.physics {
            Some(v) => {
                let ws = encode_word_list(v);
                let p = encode_words(&ws);
                proof {
                    lemma_enc_words_len(ws@);
                }
                write_chunk(out, TAG_PHYS, &p);
                proof {
                    let c = RawChunkView { tag: TAG_PHYS, payload: p@ };
                    assert(ck =~= seq![c]);
                    crate::reader::lemma_frames_single(c);
                }
            },
            None => {
                proof {
                    assert(ck =~= Seq::<RawChunkView>::empty());
                    assert(out@ + frames_bytes(ck) =~= out@);
                }
            },
        }
    }

    /// Appends this slot's frame, if the slot is filled.
    fn write_slot_extensions(&self, out: &mut Vec<u8>)
        requires
            wf_model(self@),
        ensures
            final(out)@ == old(out)@ + frames_bytes(
                opt_frame(
                    TAG_EXPT,
                    match self@.extensions {
                        Some(s) => Some(enc_words(enc_word_list(s))),
                        None => None,
                    },
                ),
            ),
    {
        let ghost mv = self@;
        let ghost ck = opt_frame(
            TAG_EXPT,
            match mv.extensions {
                Some(s) => Some(enc_words(enc_word_list(s))),
                None => None,
            },
        );
        match &self.extensions {
            Some(v) => {
                let ws = encode_word_list(v);
                let p = encode_words(&ws);
                proof {
                    lemma_enc_words_len(ws@);
                }
                write_chunk(out, TAG_EXPT, &p);
                proof {
                    let c = RawChunkView { tag: TAG_EXPT, payload: p@ };
                    assert(ck =~= seq![c]);
                    crate::reader::lemma_frames_single(c);
                }
            },
            None => {
                proof {
                    assert(ck =~= Seq::<RawChunkView>::empty());
                    assert(out@ + frames_bytes(ck) =~= out@);
                }
            },
        }
    }

    /// Appends the physics-file-id frame, if the slot is filled.
    fn write_slot_pfid(&self, out: &mut Vec<u8>)
        requires
            wf_model(self@),
        ensures
            final(out)@ == old(out)@ + frames_bytes(
                opt_frame(
                    TAG_PFID,
                    match self@.physics_file_id {
                        Some(id) => Some(enc_words(enc_pfid(id))),
                        None => None,
                    },
                ),
            ),
    {
        let ghost mv = self@;
        let ghost ck = opt_frame(
            TAG_PFID,
            match mv.physics_file_id {
                Some(id) => Some(enc_words(enc_pfid(id))),
                None => None,
            },
        );
        match &self.physics_file_id {
            Some(id) => {
                let mut ws: Vec<u32> = Vec::new();
                ws.push(*id);
                let p = encode_words(&ws);
                proof {
                    assert(ws@ =~= enc_pfid(mv.physics_file_id->Some_0));
                    lemma_enc_words_len(ws@);
                }
                write_chunk(out, TAG_PFID, &p);
                proof {
                    let c = RawChunkView { tag: TAG_PFID, payload: p@ };
                    assert(ck =~= seq![c]);
                    crate::reader::lemma_frames_single(c);
                }
            },
            None => {
                proof {
                    assert(ck =~= Seq::<RawChunkView>::empty());
                    assert(out@ + frames_bytes(ck) =~= out@);
                }
            },
        }
    }

}



/// Every chunk a successful read yields fits its size field.
pub proof fn lemma_parse_frames_wf(b: Seq<u8>)
    requires
        parse_frames(b) is Ok,
    ensures
        forall|i: int|
            0 <= i < parse_frames(b)->Ok_0.len() ==> wf_chunk(#[trigger] parse_frames(b)->Ok_0[i]),
    decreases b.len(),
{
    if b.len() == 0 {
    } else if b.len() < 8 {
    } else {
        let size = spec_u32_from_le_bytes(b.subrange(4, 8)) as int;
        if b.len() - 8 >= size {
            if parse_frames(b.skip(8 + size)) is Ok {
                lemma_parse_frames_wf(b.skip(8 + size));
                let cs = parse_frames(b)->Ok_0;
                let rest = parse_frames(b.skip(8 + size))->Ok_0;
                assert forall|i: int| 0 <= i < cs.len() implies wf_chunk(#[trigger] cs[i]) by {
                    if i >= 1 {
                        assert(cs[i] == rest[i - 1]);
                    }
                }
            }
        }
    }
}

/// Dispatching one well-formed chunk into a well-formed model keeps the
/// model well-formed.
pub proof fn lemma_apply_chunk_wf(m: ModelView, c: RawChunkView)
    requires
        wf_model(m),
        wf_chunk(c),
        spec_apply_chunk(m, c) is Ok,
    ensures
        wf_model(spec_apply_chunk(m, c)->Ok_0),
{
    let m2 = spec_apply_chunk(m, c)->Ok_0;
    if !is_known_tag(c.tag) {
    } else {
        let ws = dec_words(c.payload)->Some_0;
        assert(4 * ws.len() <= c.payload.len() + 3);
        if c.tag == TAG_SEQS {
            if crate::chunks::spec_seqs_packed(m.version) {
                let s = crate::chunks::dec_sequences(ws, m.version)->Some_0;
                assert forall|i: int| 0 <= i < s.len() implies (#[trigger] s[i]).start <= 0xFFFF
                    && s[i].end <= 0xFFFF by {
                    let w = ws[2 + 2 * i] as int;
                    assert(w / 0x10000 <= 0xFFFF) by (nonlinear_arith)
                        requires
                            0 <= w <= 0xFFFFFFFF,
                    ;
                    assert(w % 0x10000 <= 0xFFFF);
                }
            }
        } else if c.tag == TAG_TEXS {
            if !crate::chunks::spec_texs_has_name_ref(m.version) {
                let s = crate::chunks::dec_textures(ws, m.version)->Some_0;
                assert(forall|i: int| 0 <= i < s.len() ==> (#[trigger] s[i]).name_ref == 0);
            }
        }
    }
}

/// Folding well-formed chunks into a well-formed model keeps it
/// well-formed.
pub proof fn lemma_fold_chunks_wf(m: ModelView, cs: Seq<RawChunkView>)
    requires
        wf_model(m),
        forall|i: int| 0 <= i < cs.len() ==> wf_chunk(#[trigger] cs[i]),
        spec_fold_chunks(m, cs) is Ok,
    ensures
        wf_model(spec_fold_chunks(m, cs)->Ok_0),
    decreases cs.len(),
{
    if cs.len() == 0 {
    } else {
        match spec_apply_chunk(m, cs[0]) {
            Ok(m2) => {
                lemma_apply_chunk_wf(m, cs[0]);
                assert(forall|i: int|
                    0 <= i < cs.drop_first().len() ==> wf_chunk(#[trigger] cs.drop_first()[i]));
                lemma_fold_chunks_wf(m2, cs.drop_first());
            },
            Err(_) => {},
        }
    }
}

/// Every model a successful load yields is well-formed, so it can be
/// saved again.
pub proof fn lemma_parse_model_wf(b: Seq<u8>)
    requires
        spec_parse_model(b) is Ok,
    ensures
        wf_model(spec_parse_model(b)->Ok_0),
{
    let ver = M2Version::spec_from_ordinal(spec_u32_from_le_bytes(b.subrange(4, 8)))->Some_0;
    lemma_parse_frames_wf(b.skip(8));
    lemma_fold_chunks_wf(spec_empty_model(ver), parse_frames(b.skip(8))->Ok_0);
}

/// Bones available for index references.
pub open spec fn spec_bone_count(m: ModelView) -> int {
    match m.bones {
        Some(s) => s.len() as int,
        None => 0,
    }
}

/// Textures available for index references.
pub open spec fn spec_texture_count(m: ModelView) -> int {
    match m.textures {
        Some(s) => s.len() as int,
        None => 0,
    }
}

/// One finding per attachment whose bone index is out of range, in
/// attachment order, starting at position `i`.
pub open spec fn spec_dangling_errs(atts: Seq<M2Attachment>, nbones: int, i: int) -> Seq<
    ValidationError,
>
    decreases atts.len() - i,
{
    if i < 0 || i >= atts.len() {
        Seq::empty()
    } else {
        (if atts[i].bone as int >= nbones {
            seq![ValidationError::DanglingReference]
        } else {
            Seq::empty()
        }) + spec_dangling_errs(atts, nbones, i + 1)
    }
}

/// One finding per material whose texture index is out of range, in
/// material order, starting at position `i`.
pub open spec fn spec_oob_errs(mats: Seq<M2Material>, ntex: int, i: int) -> Seq<ValidationError>
    decreases mats.len() - i,
{
    if i < 0 || i >= mats.len() {
        Seq::empty()
    } else {
        (if mats[i].texture as int >= ntex {
            seq![ValidationError::OutOfBoundsIndex]
        } else {
            Seq::empty()
        }) + spec_oob_errs(mats, ntex, i + 1)
    }
}

/// The attachments to check, the empty list where the chunk is absent.
pub open spec fn spec_atts(m: ModelView) -> Seq<M2Attachment> {
    match m.attachments {
        Some(s) => s,
        None => Seq::empty(),
    }
}

/// The materials to check, the empty list where the chunk is absent.
pub open spec fn spec_mats(m: ModelView) -> Seq<M2Material> {
    match m.materials {
        Some(s) => s,
        None => Seq::empty(),
    }
}

/// A count-consistency finding: a physics table must have one entry per
/// bone.
pub open spec fn spec_count_errs(m: ModelView) -> Seq<ValidationError> {
    match m.physics {
        Some(p) => if p.len() as int != spec_bone_count(m) {
            seq![ValidationError::CountMismatch]
        } else {
            Seq::empty()
        },
        None => Seq::empty(),
    }
}

/// Every validation finding of a model, in a fixed report order: dangling
/// attachment references, then out-of-range material texture indices, then
/// count mismatches. Validation never mutates the model and never stops at
/// the first finding.
pub open spec fn spec_validate(m: ModelView) -> Seq<ValidationError> {
    spec_dangling_errs(spec_atts(m), spec_bone_count(m), 0) + spec_oob_errs(
        spec_mats(m),
        spec_texture_count(m),
        0,
    ) + spec_count_errs(m)
}

impl M2Model {
    /// Checks referential integrity and count consistency; collects every
    /// finding rather than stopping at the first. `Ok` exactly when there
    /// is no finding.
    pub fn validate(&self) -> (r: Result<(), Vec<ValidationError>>)
        ensures
            match r {
                Ok(()) => spec_validate(self@).len() == 0,
                Err(v) => v@ == spec_validate(self@) && v@.len() > 0,
            },
    {
        let ghost mv = self@;
        let mut errs: Vec<ValidationError> = Vec::new();
        let nbones: usize = match &self.bones {
            Some(b) => b.len(),
            None => 0,
        };
        let ntex: usize = match &self.textures {
            Some(t) => t.len(),
            None => 0,
        };
        match &self.attachments {
            Some(atts) => {
                let mut i: usize = 0;
                while i < atts.len()
                    invariant
                        nbones == spec_bone_count(mv),
                        spec_atts(mv) == atts@,
                        i <= atts@.len(),
                        errs@ + spec_dangling_errs(atts@, nbones as int, i as int)
                            == spec_dangling_errs(atts@, nbones as int, 0),
                    decreases atts@.len() - i,
                {
                    let ghost pre = errs@;
                    let ghost head = spec_dangling_errs(atts@, nbones as int, i as int);
                    let ghost tailp = spec_dangling_errs(atts@, nbones as int, i as int + 1);
                    if atts[i].bone as u64 >= nbones as u64 {
                        errs.push(ValidationError::DanglingReference);
                        proof {
                            assert(head == seq![ValidationError::DanglingReference] + tailp);
                            assert(errs@ =~= pre + seq![ValidationError::DanglingReference]);
                            vstd::seq_lib::lemma_concat_associative(
                                pre,
                                seq![ValidationError::DanglingReference],
                                tailp,
                            );
                        }
                    } else {
                        proof {
                            assert(head =~= tailp);
                        }
                    }
                    i = i + 1;
                }
                proof {
                    assert(spec_dangling_errs(atts@, nbones as int, atts@.len() as int)
                        =~= Seq::<ValidationError>::empty());
                    assert(errs@ + Seq::<ValidationError>::empty() =~= errs@);
                }
            },
            None => {
                proof {
                    assert(spec_atts(mv) =~= Seq::<M2Attachment>::empty());
                    assert(spec_dangling_errs(spec_atts(mv), nbones as int, 0)
                        =~= Seq::<ValidationError>::empty());
                    assert(errs@ + Seq::<ValidationError>::empty() =~= errs@);
                }
            },
        }
        proof {
            assert(errs@ == spec_dangling_errs(spec_atts(mv), spec_bone_count(mv), 0));
        }
        let ghost base1 = errs@;
        match &self.materials {
            Some(mats) => {
                let mut i: usize = 0;
                while i < mats.len()
                    invariant
                        ntex == spec_texture_count(mv),
                        spec_mats(mv) == mats@,
                        i <= mats@.len(),
                        errs@ + spec_oob_errs(mats@, ntex as int, i as int) == base1
                            + spec_oob_errs(mats@, ntex as int, 0),
                    decreases mats@.len() - i,
                {
                    let ghost pre = errs@;
                    let ghost head = spec_oob_errs(mats@, ntex as int, i as int);
                    let ghost tailp = spec_oob_errs(mats@, ntex as int, i as int + 1);
                    if mats[i].texture as u64 >= ntex as u64 {
                        errs.push(ValidationError::OutOfBoundsIndex);
                        proof {
                            assert(head == seq![ValidationError::OutOfBoundsIndex] + tailp);
                            assert(errs@ =~= pre + seq![ValidationError::OutOfBoundsIndex]);
                            vstd::seq_lib::lemma_concat_associative(
                                pre,
                                seq![ValidationError::OutOfBoundsIndex],
                                tailp,
                            );
                        }
                    } else {
                        proof {
                            assert(head =~= tailp);
                        }
                    }
                    i = i + 1;
                }
                proof {
                    assert(spec_oob_errs(mats@, ntex as int, mats@.len() as int)
                        =~= Seq::<ValidationError>::empty());
                    assert(errs@ + Seq::<ValidationError>::empty() =~= errs@);
                }
            },
            None => {
                proof {
                    assert(spec_mats(mv) =~= Seq::<M2Material>::empty());
                    assert(spec_oob_errs(spec_mats(mv), ntex as int, 0)
                        =~= Seq::<ValidationError>::empty());
                    assert(errs@ + Seq::<ValidationError>::empty() =~= errs@);
                }
            },
        }
        proof {
            assert(errs@ == base1 + spec_oob_errs(spec_mats(mv), spec_texture_count(mv), 0));
        }
        let ghost base2 = errs@;
        match &self.physics {
            Some(p) => {
                if p.len() as u64 != nbones as u64 {
                    errs.push(ValidationError::CountMismatch);
                    proof {
                        assert(spec_count_errs(mv) == seq![ValidationError::CountMismatch]);
                        assert(errs@ =~= base2 + spec_count_errs(mv));
                    }
                } else {
                    proof {
                        assert(spec_count_errs(mv) =~= Seq::<ValidationError>::empty());
                        assert(errs@ =~= base2 + spec_count_errs(mv));
                    }
                }
            },
            None => {
                proof {
                    assert(spec_count_errs(mv) =~= Seq::<ValidationError>::empty());
                    assert(errs@ =~= base2 + spec_count_errs(mv));
                }
            },
        }
        proof {
            vstd::seq_lib::lemma_concat_associative(
                spec_dangling_errs(spec_atts(mv), spec_bone_count(mv), 0),
                spec_oob_errs(spec_mats(mv), spec_texture_count(mv), 0),
                spec_count_errs(mv),
            );
            assert(errs@ == spec_validate(mv));
        }
        if errs.len() == 0 {
            Ok(())
        } else {
            Err(errs)
        }
    }
}

} // verus!
