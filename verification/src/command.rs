//! The command surface consumed by tooling. Each command takes the raw
//! bytes of the file it works on and plain option values; reading and
//! writing files, and all printing, belong to the caller.

use crate::anim::{
    sat_add, sat_mul, spec_parse_anim, spec_total_rkf, spec_total_skf, spec_total_tkf, AnimFile,
    AnimFormat, AnimUsage, ROTATION_KF_BYTES, SCALING_KF_BYTES, TRANSLATION_KF_BYTES,
};
use crate::convert::{spec_convert, M2Converter};
use crate::error::{ConversionError, ParseError, ValidationError};
use crate::model::{
    spec_model_bytes, spec_parse_model, spec_validate, M2Model, ModelView,
};
use crate::skin::{
    skin_format_for, spec_parse_skin, spec_parse_skin_as, spec_skin_bytes, spec_skin_format_for,
    Skin, SkinFormat, SkinView,
};
use crate::version::M2Version;
use vstd::prelude::*;

verus! {

/// The commands over model, skin and animation buffers.
pub enum M2Commands {
    /// Summarize a model buffer.
    Info { data: Vec<u8>, detailed: bool },
    /// Collect a model buffer's validation findings.
    Validate { data: Vec<u8>, warnings: bool },
    /// Re-encode a model buffer for the named target version.
    Convert { input: Vec<u8>, version: String },
    /// List a model buffer's structure.
    Tree { data: Vec<u8>, depth: usize, size: bool, refs: bool },
    /// Summarize a skin buffer.
    SkinInfo { data: Vec<u8>, detailed: bool, old_format: bool },
    /// Re-encode a skin buffer, checking the named target version.
    SkinConvert { input: Vec<u8>, version: String },
    /// Summarize an animation buffer.
    AnimInfo { data: Vec<u8>, detailed: bool },
    /// Re-encode an animation buffer for the named target version.
    AnimConvert { input: Vec<u8>, version: String },
}

/// Why a command failed.
#[derive(Clone, Copy, Debug, PartialEq, Eq, Structural)]
pub enum CommandError {
    Parse(ParseError),
    Conversion(ConversionError),
}

/// What a command produced.
pub enum CommandOutput {
    /// Version and chunk structure of a model.
    ModelInfo { version: M2Version, known_chunks: usize, unknown_chunks: usize },
    /// Every validation finding, in report order; empty means clean.
    ValidationReport { findings: Vec<ValidationError> },
    ConvertedModel { bytes: Vec<u8> },
    SkinReport { format: SkinFormat, submeshes: usize, indices: usize, triangles: usize },
    ConvertedSkin { bytes: Vec<u8> },
    AnimReport { format: AnimFormat, sections: usize, usage: AnimUsage },
    ConvertedAnim { bytes: Vec<u8> },
}

/// How many known chunk slots a model fills.
pub open spec fn spec_known_chunks(m: ModelView) -> int {
    (if m.bones is Some {
        1int
    } else {
        0int
    }) + (if m.sequences is Some {
        1int
    } else {
        0int
    }) + (if m.textures is Some {
        1int
    } else {
        0int
    }) + (if m.materials is Some {
        1int
    } else {
        0int
    }) + (if m.attachments is Some {
        1int
    } else {
        0int
    }) + (if m.physics_file_id is Some {
        1int
    } else {
        0int
    }) + (if m.physics is Some {
        1int
    } else {
        0int
    }) + (if m.extensions is Some {
        1int
    } else {
        0int
    })
}

fn known_chunks(m: &M2Model) -> (r: usize)
    ensures
        r == spec_known_chunks(m@),
{
    let mut r: usize = 0;
    if m.bones.is_some() {
        r = r + 1;
    }
    if m.sequences.is_some() {
        r = r + 1;
    }
    if m.textures.is_some() {
        r = r + 1;
    }
    if m.materials.is_some() {
        r = r + 1;
    }
    if m.attachments.is_some() {
        r = r + 1;
    }
    if m.physics_file_id.is_some() {
        r = r + 1;
    }
    if m.physics.is_some() {
        r = r + 1;
    }
    if m.extensions.is_some() {
        r = r + 1;
    }
    r
}

/// What the model-summary commands report of a parsed model.
pub open spec fn model_info_matches(r: CommandOutput, mv: ModelView) -> bool {
    r matches CommandOutput::ModelInfo { version, known_chunks, unknown_chunks }
        && version == mv.version && known_chunks == spec_known_chunks(mv) && unknown_chunks
        == mv.unknown.len()
}

/// Runs one command over its byte buffers.
///
/// Every load, conversion and save is pinned to the same specification
/// functions the library's own contracts use; every error of a
/// sub-operation is surfaced, never swallowed.
#[verifier::rlimit(100)]
#[verifier::spinoff_prover]
pub fn execute(cmd: M2Commands) -> (r: Result<CommandOutput, CommandError>)
    ensures
        match cmd {
            M2Commands::Info { data, .. } => match spec_parse_model(data@) {
                Ok(mv) => r is Ok && model_info_matches(r->Ok_0, mv),
                Err(e) => r == Err::<CommandOutput, CommandError>(CommandError::Parse(e)),
            },
            M2Commands::Tree { data, .. } => match spec_parse_model(data@) {
                Ok(mv) => r is Ok && model_info_matches(r->Ok_0, mv),
                Err(e) => r == Err::<CommandOutput, CommandError>(CommandError::Parse(e)),
            },
            M2Commands::Validate { data, .. } => match spec_parse_model(data@) {
                Ok(mv) => r is Ok && (r->Ok_0 matches CommandOutput::ValidationReport { findings }
                    && findings@ == spec_validate(mv)),
                Err(e) => r == Err::<CommandOutput, CommandError>(CommandError::Parse(e)),
            },
            M2Commands::Convert { input, version } => match M2Version::spec_from_expansion_name(
                version@,
            ) {
                None => r == Err::<CommandOutput, CommandError>(
                    CommandError::Parse(ParseError::UnknownVersion),
                ),
                Some(v) => match spec_parse_model(input@) {
                    Err(e) => r == Err::<CommandOutput, CommandError>(CommandError::Parse(e)),
                    Ok(mv) => match spec_convert(mv, v) {
                        Err(e) => r == Err::<CommandOutput, CommandError>(
                            CommandError::Conversion(e),
                        ),
                        Ok(m2) => r is Ok && (r->Ok_0 matches CommandOutput::ConvertedModel {
                            bytes,
                        } && bytes@ == spec_model_bytes(m2)),
                    },
                },
            },
            M2Commands::SkinInfo { data, old_format, .. } => (match (if old_format {
                spec_parse_skin_as(data@, SkinFormat::Legacy)
            } else {
                spec_parse_skin(data@)
            }) {
                Ok(sv) => r is Ok && (r->Ok_0 matches CommandOutput::SkinReport {
                    format,
                    submeshes,
                    indices,
                    triangles,
                } && format == sv.format && submeshes == sv.submeshes.len() && indices
                    == sv.indices.len() && triangles == sv.triangles.len()),
                Err(e) => r == Err::<CommandOutput, CommandError>(CommandError::Parse(e)),
            }),
            M2Commands::SkinConvert { input, version } => match M2Version::spec_from_expansion_name(
                version@,
            ) {
                None => r == Err::<CommandOutput, CommandError>(
                    CommandError::Parse(ParseError::UnknownVersion),
                ),
                Some(v) => match spec_parse_skin(input@) {
                    Err(e) => r == Err::<CommandOutput, CommandError>(CommandError::Parse(e)),
                    Ok(sv) => r is Ok && (r->Ok_0 matches CommandOutput::ConvertedSkin { bytes }
                        && bytes@ == spec_skin_bytes(
                        (SkinView {
                            format: spec_skin_format_for(v),
                            indices: sv.indices,
                            triangles: sv.triangles,
                            submeshes: sv.submeshes,
                        }),
                    )),
                },
            },
            M2Commands::AnimInfo { data, .. } => match spec_parse_anim(data@) {
                Ok(av) => r is Ok && (r->Ok_0 matches CommandOutput::AnimReport {
                    format,
                    sections,
                    usage,
                } && format == av.format && sections == av.sections.len() && usage.sections
                    == av.sections.len() as u64 && usage.translation_keyframes == spec_total_tkf(
                    av.sections,
                    0,
                ) && usage.rotation_keyframes == spec_total_rkf(av.sections, 0)
                    && usage.scaling_keyframes == spec_total_skf(av.sections, 0)
                    && usage.approximate_bytes == sat_add(
                    sat_mul(TRANSLATION_KF_BYTES, spec_total_tkf(av.sections, 0)),
                    sat_add(
                        sat_mul(ROTATION_KF_BYTES, spec_total_rkf(av.sections, 0)),
                        sat_mul(SCALING_KF_BYTES, spec_total_skf(av.sections, 0)),
                    ),
                )),
                Err(e) => r == Err::<CommandOutput, CommandError>(CommandError::Parse(e)),
            },
            M2Commands::AnimConvert { input, version } => match M2Version::spec_from_expansion_name(
                version@,
            ) {
                None => r == Err::<CommandOutput, CommandError>(
                    CommandError::Parse(ParseError::UnknownVersion),
                ),
                Some(v) => match spec_parse_anim(input@) {
                    Err(e) => r == Err::<CommandOutput, CommandError>(CommandError::Parse(e)),
                    Ok(av) => r is Ok && (r->Ok_0 matches CommandOutput::ConvertedAnim { bytes }
                        && bytes@ == crate::anim::spec_anim_bytes(
                        crate::anim::spec_anim_convert(av, v),
                    )),
                },
            },
        },
{
    match cmd {
        M2Commands::Info { data, detailed: _ } => {
            let model = match M2Model::load(data.as_slice()) {
                Ok(m) => m,
                Err(e) => {
                    return Err(CommandError::Parse(e));
                },
            };
            Ok(
                CommandOutput::ModelInfo {
                    version: model.version,
                    known_chunks: known_chunks(&model),
                    unknown_chunks: model.unknown.len(),
                },
            )
        },
        M2Commands::Tree { data, depth: _, size: _, refs: _ } => {
            let model = match M2Model::load(data.as_slice()) {
                Ok(m) => m,
                Err(e) => {
                    return Err(CommandError::Parse(e));
                },
            };
            Ok(
                CommandOutput::ModelInfo {
                    version: model.version,
                    known_chunks: known_chunks(&model),
                    unknown_chunks: model.unknown.len(),
                },
            )
        },
        M2Commands::Validate { data, warnings: _ } => {
            let model = match M2Model::load(data.as_slice()) {
                Ok(m) => m,
                Err(e) => {
                    return Err(CommandError::Parse(e));
                },
            };
            let findings = match model.validate() {
                Ok(()) => Vec::new(),
                Err(v) => v,
            };
            proof {
                assert(findings@ =~= spec_validate(model@));
            }
            Ok(CommandOutput::ValidationReport { findings })
        },
        M2Commands::Convert { input, version } => {
            let target = match M2Version::from_expansion_name(version.as_str()) {
                Ok(v) => v,
                Err(e) => {
                    return Err(CommandError::Parse(e));
                },
            };
            let model = match M2Model::load(input.as_slice()) {
                Ok(m) => m,
                Err(e) => {
                    return Err(CommandError::Parse(e));
                },
            };
            proof {
                crate::model::lemma_parse_model_wf(input@);
            }
            let converter = M2Converter::new();
            let converted = match converter.convert(&model, target) {
                Ok(m2) => m2,
                Err(e) => {
                    return Err(CommandError::Conversion(e));
                },
            };
            proof {
                crate::convert::lemma_convert_wf(model@, target);
            }
            let bytes = converted.save();
            Ok(CommandOutput::ConvertedModel { bytes })
        },
        M2Commands::SkinInfo { data, detailed: _, old_format } => {
            let loaded = if old_format {
                Skin::load_with(data.as_slice(), SkinFormat::Legacy)
            } else {
                Skin::load(data.as_slice())
            };
            let skin = match loaded {
                Ok(s) => s,
                Err(e) => {
                    return Err(CommandError::Parse(e));
                },
            };
            Ok(
                CommandOutput::SkinReport {
                    format: skin.format,
                    submeshes: skin.submeshes.len(),
                    indices: skin.indices.len(),
                    triangles: skin.triangles.len(),
                },
            )
        },
        M2Commands::SkinConvert { input, version } => {
            let target = match M2Version::from_expansion_name(version.as_str()) {
                Ok(v) => v,
                Err(e) => {
                    return Err(CommandError::Parse(e));
                },
            };
            let mut skin = match Skin::load(input.as_slice()) {
                Ok(s) => s,
                Err(e) => {
                    return Err(CommandError::Parse(e));
                },
            };
            proof {
                crate::skin::lemma_parse_skin_wf(input@);
            }
            skin.format = skin_format_for(target);
            let bytes = skin.save();
            Ok(CommandOutput::ConvertedSkin { bytes })
        },
        M2Commands::AnimInfo { data, detailed: _ } => {
            let anim = match AnimFile::load(data.as_slice()) {
                Ok(a) => a,
                Err(e) => {
                    return Err(CommandError::Parse(e));
                },
            };
            let usage = anim.memory_usage();
            Ok(
                CommandOutput::AnimReport {
                    format: anim.format,
                    sections: anim.animation_count(),
                    usage,
                },
            )
        },
        M2Commands::AnimConvert { input, version } => {
            let target = match M2Version::from_expansion_name(version.as_str()) {
                Ok(v) => v,
                Err(e) => {
                    return Err(CommandError::Parse(e));
                },
            };
            let anim = match AnimFile::load(input.as_slice()) {
                Ok(a) => a,
                Err(e) => {
                    return Err(CommandError::Parse(e));
                },
            };
            proof {
                crate::anim::lemma_parse_anim_wf(input@);
            }
            let converted = anim.convert(target);
            let bytes = converted.save();
            Ok(CommandOutput::ConvertedAnim { bytes })
        },
    }
}

} // verus!
