//! Parsing, validation and cross-version conversion for a family of chunked
//! game-model binary formats: the chunked model container, the companion
//! skin (submesh/index) format with two historical header layouts, and the
//! keyframe-animation format with two incompatible on-disk encodings.
//!
//! All entry points work on in-memory byte buffers; reading and writing
//! files is left to the caller.
//!
//! The central guarantees are stated and proved alongside the code:
//! - loading the saved bytes of a well-formed model yields the model again
//!   (`model::lemma_model_roundtrip`), and every model a load yields is
//!   well-formed in that sense (`model::lemma_parse_model_wf`);
//! - every encoded chunk frame's declared size equals its payload's exact
//!   byte length (`reader::lemma_frame_size_integrity`);
//! - converting a model to its own version returns it unchanged
//!   (`convert::lemma_convert_identity`), and in-place conversion is
//!   transactional (`model::M2Model::convert_to`);
//! - a legacy-header skin and a modern-header skin over the same lists
//!   normalize to equal lists (`skin::lemma_skin_normalization`);
//! - animation conversion never touches the per-section keyframe data
//!   (`anim::lemma_anim_convert_keeps_sections`), is the identity where
//!   the target requires the file's own format
//!   (`anim::lemma_anim_convert_preserves_format`), and transcoding to the
//!   modern layout and back preserves the keyframes exactly
//!   (`anim::lemma_anim_transcode_roundtrip`).

pub mod anim;
pub mod chunks;
pub mod command;
pub mod convert;
pub mod error;
pub mod model;
pub mod reader;
pub mod skin;
pub mod version;
pub mod words;
