//! The version converter. A conversion walks the known chunk tags in a
//! fixed dependency order (structural chunks such as bones before chunks
//! that reference bone indices), drops chunks the target forbids unless
//! they are flagged required for integrity, synthesizes documented
//! defaults for required-but-absent chunks, transforms layout-sensitive
//! values, and re-validates the whole model. It is all-or-nothing: every
//! failure leaves the source model untouched.

use crate::chunks::{
    spec_chunk_legal, spec_chunk_required, spec_seqs_packed, spec_texs_has_name_ref, M2Sequence,
    M2Texture, TAG_EXPT, TAG_PFID, TAG_PHYS,
};
use crate::error::ConversionError;
use crate::model::{spec_validate, wf_model, M2Model, ModelView};
use crate::version::M2Version;
use vstd::prelude::*;

verus! {

/// Whether every sequence timestamp fits the packed 16-bit layout.
pub open spec fn spec_seqs_fit(s: Seq<M2Sequence>) -> bool {
    forall|i: int| 0 <= i < s.len() ==> (#[trigger] s[i]).start <= 0xFFFF && s[i].end <= 0xFFFF
}

/// The texture list as re-encoded for a target version: moving below the
/// name-reference threshold clears every name reference — a documented
/// lossy narrowing of this chunk.
pub open spec fn spec_transform_textures(s: Seq<M2Texture>, target: M2Version) -> Seq<M2Texture> {
    if spec_texs_has_name_ref(target) {
        s
    } else {
        s.map_values(|t: M2Texture| M2Texture { kind: t.kind, flags: t.flags, name_ref: 0 })
    }
}

/// The converted model, before re-validation: target rules applied slot by
/// slot in the fixed dependency order.
pub open spec fn spec_convert_slots(m: ModelView, target: M2Version) -> ModelView {
    ModelView {
        version: target,
        bones: m.bones,
        sequences: m.sequences,
        textures: match m.textures {
            Some(s) => Some(spec_transform_textures(s, target)),
            None => None,
        },
        materials: m.materials,
        attachments: m.attachments,
        physics_file_id: if spec_chunk_legal(TAG_PFID, target) {
            m.physics_file_id
        } else {
            None
        },
        physics: m.physics,
        extensions: if !spec_chunk_legal(TAG_EXPT, target) {
            None
        } else if m.extensions is None && spec_chunk_required(TAG_EXPT, target) {
            Some(Seq::empty())
        } else {
            m.extensions
        },
        unknown: m.unknown,
    }
}

/// The whole conversion. Errors, in their order of precedence:
/// `FieldOverflow` where a sequence timestamp does not fit the target's
/// packed 16-bit layout; `CannotDropRequiredChunk` where the target forbids
/// the integrity-flagged physics table; `MissingRequiredChunk` where the
/// target requires a physics table and the source has none;
/// `PostConversionValidationFailed` where the converted model has
/// validation findings. Otherwise the converted model is returned.
pub open spec fn spec_convert(m: ModelView, target: M2Version) -> Result<
    ModelView,
    ConversionError,
> {
    if m.sequences is Some && spec_seqs_packed(target) && !spec_seqs_fit(m.sequences->Some_0) {
        Err(ConversionError::FieldOverflow)
    } else if m.physics is Some && !spec_chunk_legal(TAG_PHYS, target) {
        Err(ConversionError::CannotDropRequiredChunk)
    } else if m.physics is None && spec_chunk_required(TAG_PHYS, target) {
        Err(ConversionError::MissingRequiredChunk)
    } else {
        let m2 = spec_convert_slots(m, target);
        if spec_validate(m2).len() != 0 {
            Err(ConversionError::PostConversionValidationFailed)
        } else {
            Ok(m2)
        }
    }
}

/// Converting a model to its own version returns it unchanged.
///
/// Holds for every well-formed model without validation findings: at the
/// model's own version no slot is dropped, no default is synthesized, and
/// every per-chunk transform is the identity.
pub proof fn lemma_convert_identity(m: ModelView)
    requires
        wf_model(m),
        crate::model::spec_complete_model(m),
        spec_validate(m).len() == 0,
    ensures
        spec_convert(m, m.version) == Ok::<ModelView, ConversionError>(m),
{
    let m2 = spec_convert_slots(m, m.version);
    match m.textures {
        Some(s) => {
            assert(spec_transform_textures(s, m.version) =~= s);
        },
        None => {},
    }
    assert(m2 =~= m);
}

/// The converter over models.
pub struct M2Converter {}

impl M2Converter {
    pub fn new() -> (r: M2Converter) {
        M2Converter {}
    }

    /// Converts a model for a target version without touching the source.
    /// The result matches `spec_convert` case for case.
    pub fn convert(&self, model: &M2Model, target_version: M2Version) -> (r: Result<
        M2Model,
        ConversionError,
    >)
        ensures
            match r {
                Ok(m2) => spec_convert(model@, target_version) == Ok::<
                    ModelView,
                    ConversionError,
                >(m2@),
                Err(e) => spec_convert(model@, target_version) == Err::<
                    ModelView,
                    ConversionError,
                >(e),
            },
    {
        let ghost mv = model@;
        // Sequence timestamps must fit the target's packed layout.
        match &model.sequences {
            Some(s) => {
                if target_version.ordinal() < 3 {
                    let mut i: usize = 0;
                    while i < s.len()
                        invariant
                            mv == model@,
                            spec_seqs_packed(target_version),
                            mv.sequences == Some(s@),
                            i <= s@.len(),
                            forall|j: int|
                                0 <= j < i ==> (#[trigger] s@[j]).start <= 0xFFFF && s@[j].end
                                    <= 0xFFFF,
                        decreases s@.len() - i,
                    {
                        if s[i].start > 0xFFFF || s[i].end > 0xFFFF {
                            proof {
                                assert(!((s@[i as int]).start <= 0xFFFF && s@[i as int].end
                                    <= 0xFFFF));
                                assert(!spec_seqs_fit(s@));
                            }
                            return Err(ConversionError::FieldOverflow);
                        }
                        i = i + 1;
                    }
                    proof {
                        assert(spec_seqs_fit(mv.sequences->Some_0));
                    }
                }
            },
            None => {},
        }
        // The physics table is integrity-flagged: it may be neither dropped
        // nor left missing where the target requires it.
        if model.physics.is_some() && !crate::chunks::chunk_legal(TAG_PHYS, target_version) {
            return Err(ConversionError::CannotDropRequiredChunk);
        }
        if model.physics.is_none() && crate::chunks::chunk_required(TAG_PHYS, target_version) {
            return Err(ConversionError::MissingRequiredChunk);
        }
        let textures: Option<Vec<M2Texture>> = match &model.textures {
            Some(s) => {
                if target_version.ordinal() >= 2 {
                    Some(s.clone())
                } else {
                    let mut t: Vec<M2Texture> = Vec::new();
                    let mut i: usize = 0;
                    while i < s.len()
                        invariant
                            i <= s@.len(),
                            t@.len() == i,
                            forall|j: int|
                                0 <= j < i ==> #[trigger] t@[j] == (M2Texture {
                                    kind: s@[j].kind,
                                    flags: s@[j].flags,
                                    name_ref: 0,
                                }),
                        decreases s@.len() - i,
                    {
                        t.push(M2Texture { kind: s[i].kind, flags: s[i].flags, name_ref: 0 });
                        i = i + 1;
                    }
                    proof {
                        assert(t@ =~= spec_transform_textures(s@, target_version));
                    }
                    Some(t)
                }
            },
            None => None,
        };
        let extensions: Option<Vec<u32>> = if !crate::chunks::chunk_legal(
            TAG_EXPT,
            target_version,
        ) {
            None
        } else if model.extensions.is_none() && crate::chunks::chunk_required(
            TAG_EXPT,
            target_version,
        ) {
            Some(Vec::new())
        } else {
            match &model.extensions {
                Some(s) => Some(s.clone()),
                None => None,
            }
        };
        let candidate = M2Model {
            version: target_version,
            bones: match &model.bones {
                Some(s) => Some(s.clone()),
                None => None,
            },
            sequences: match &model.sequences {
                Some(s) => Some(s.clone()),
                None => None,
            },
            textures,
            materials: match &model.materials {
                Some(s) => Some(s.clone()),
                None => None,
            },
            attachments: match &model.attachments {
                Some(s) => Some(s.clone()),
                None => None,
            },
            physics_file_id: if crate::chunks::chunk_legal(TAG_PFID, target_version) {
                model.physics_file_id
            } else {
                None
            },
            physics: match &model.physics {
                Some(s) => Some(s.clone()),
                None => None,
            },
            extensions,
            unknown: clone_chunks(&model.unknown),
        };
        proof {
            assert(candidate@ =~= crate::convert::spec_convert_slots(mv, target_version));
        }
        match candidate.validate() {
            Ok(()) => Ok(candidate),
            Err(_) => Err(ConversionError::PostConversionValidationFailed),
        }
    }
}

/// A copy of a raw chunk list, record for record.
fn clone_chunks(cs: &Vec<crate::reader::RawChunk>) -> (out: Vec<crate::reader::RawChunk>)
    ensures
        crate::reader::chunks_view(out@) == crate::reader::chunks_view(cs@),
{
    let mut out: Vec<crate::reader::RawChunk> = Vec::new();
    let mut i: usize = 0;
    while i < cs.len()
        invariant
            i <= cs@.len(),
            out@.len() == i,
            forall|j: int| 0 <= j < i ==> (#[trigger] out@[j])@ == cs@[j]@,
        decreases cs@.len() - i,
    {
        let c = &cs[i];
        let payload = vstd::slice::slice_to_vec(c.payload.as_slice());
        out.push(crate::reader::RawChunk { tag: c.tag, payload });
        i = i + 1;
    }
    proof {
        assert(crate::reader::chunks_view(out@) =~= crate::reader::chunks_view(cs@));
    }
    out
}

impl M2Model {
    /// In-place conversion; transactional. On any error the model is left
    /// exactly as it was.
    pub fn convert_to(&mut self, target_version: M2Version) -> (r: Result<(), ConversionError>)
        ensures
            match r {
                Ok(()) => spec_convert(old(self)@, target_version) == Ok::<
                    ModelView,
                    ConversionError,
                >(final(self)@),
                Err(e) => spec_convert(old(self)@, target_version) == Err::<
                    ModelView,
                    ConversionError,
                >(e) && final(self)@ == old(self)@,
            },
    {
        let converter = M2Converter::new();
        let res = converter.convert(self, target_version);
        match res {
            Ok(m2) => {
                *self = m2;
                Ok(())
            },
            Err(e) => Err(e),
        }
    }
}

/// The per-type conversion capability: anything that can re-shape itself
/// for another format version. Each implementor names its conversion's
/// specified outcome, and the method is held to it case for case.
pub trait VersionConverter: View + Sized {
    /// What converting this value for the target version yields.
    spec fn spec_convert_to_version(&self, target_version: M2Version) -> Result<
        Self::V,
        ConversionError,
    >;

    /// Converts `self` for a target version.
    fn convert_to_version(&self, target_version: M2Version) -> (r: Result<Self, ConversionError>)
        ensures
            match r {
                Ok(x) => self.spec_convert_to_version(target_version) == Ok::<
                    Self::V,
                    ConversionError,
                >(x@),
                Err(e) => self.spec_convert_to_version(target_version) == Err::<
                    Self::V,
                    ConversionError,
                >(e),
            },
    ;
}

impl VersionConverter for M2Model {
    open spec fn spec_convert_to_version(&self, target_version: M2Version) -> Result<
        ModelView,
        ConversionError,
    > {
        spec_convert(self@, target_version)
    }

    fn convert_to_version(&self, target_version: M2Version) -> (r: Result<
        M2Model,
        ConversionError,
    >) {
        let converter = M2Converter::new();
        converter.convert(self, target_version)
    }
}


/// A successful conversion yields a well-formed, complete model: it can be
/// saved, and it satisfies the target version's requirement rules.
pub proof fn lemma_convert_wf(m: ModelView, target: M2Version)
    requires
        wf_model(m),
        spec_convert(m, target) is Ok,
    ensures
        wf_model(spec_convert(m, target)->Ok_0),
        crate::model::spec_complete_model(spec_convert(m, target)->Ok_0),
{
    let m2 = spec_convert(m, target)->Ok_0;
    match m.textures {
        Some(s) => {
            assert(spec_transform_textures(s, target).len() == s.len());
            if !spec_texs_has_name_ref(target) {
                assert(forall|i: int|
                    0 <= i < s.len() ==> (#[trigger] spec_transform_textures(s, target)[i]).name_ref
                        == 0);
            }
        },
        None => {},
    }
}

impl VersionConverter for crate::anim::AnimFile {
    open spec fn spec_convert_to_version(&self, target_version: M2Version) -> Result<
        crate::anim::AnimFileView,
        ConversionError,
    > {
        Ok(crate::anim::spec_anim_convert(self@, target_version))
    }

    fn convert_to_version(&self, target_version: M2Version) -> (r: Result<
        crate::anim::AnimFile,
        ConversionError,
    >) {
        Ok(self.convert(target_version))
    }
}
} // verus!
