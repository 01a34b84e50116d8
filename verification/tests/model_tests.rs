use wow_m2::chunks::{
    M2Attachment, M2Bone, M2Material, M2Sequence, M2Texture, TAG_ATCH, TAG_BONE, TAG_PFID,
};
use wow_m2::convert::{M2Converter, VersionConverter};
use wow_m2::error::{ConversionError, ParseError, ValidationError};
use wow_m2::model::M2Model;
use wow_m2::reader::RawChunk;
use wow_m2::version::M2Version;

fn w(out: &mut Vec<u8>, x: u32) {
    out.extend_from_slice(&x.to_le_bytes());
}

fn header(version: u32) -> Vec<u8> {
    let mut v = Vec::new();
    w(&mut v, 0x31324D44);
    w(&mut v, version);
    v
}

fn frame(out: &mut Vec<u8>, tag: u32, words: &[u32]) {
    w(out, tag);
    w(out, (4 * words.len()) as u32);
    for &x in words {
        w(out, x);
    }
}

fn sample_model() -> M2Model {
    M2Model {
        version: M2Version::WrathOfTheLichKing,
        bones: Some(vec![
            M2Bone { parent: 0xFFFF_FFFF, flags: 1 },
            M2Bone { parent: 0, flags: 2 },
        ]),
        sequences: Some(vec![M2Sequence { id: 4, start: 10, end: 90 }]),
        textures: Some(vec![M2Texture { kind: 1, flags: 0, name_ref: 7 }]),
        materials: Some(vec![M2Material { texture: 0, blend: 3 }]),
        attachments: Some(vec![M2Attachment { bone: 1, kind: 5 }]),
        physics_file_id: Some(42),
        physics: None,
        extensions: None,
        unknown: vec![],
    }
}

#[test]
fn model_save_load_roundtrip() {
    let m = sample_model();
    let bytes = m.save();
    let l = M2Model::load(&bytes).expect("roundtrip load");
    assert_eq!(l.version, m.version);
    assert_eq!(l.bones, m.bones);
    assert_eq!(l.sequences, m.sequences);
    assert_eq!(l.textures, m.textures);
    assert_eq!(l.materials, m.materials);
    assert_eq!(l.attachments, m.attachments);
    assert_eq!(l.physics_file_id, m.physics_file_id);
    assert_eq!(l.physics, m.physics);
    assert_eq!(l.extensions, m.extensions);
    assert!(l.unknown.is_empty());
    // Byte-for-byte: saving the reloaded model reproduces the buffer.
    assert_eq!(l.save(), bytes);
}

#[test]
fn unknown_chunks_pass_through() {
    let m = M2Model {
        version: M2Version::Classic,
        bones: None,
        sequences: None,
        textures: None,
        materials: None,
        attachments: None,
        physics_file_id: None,
        physics: None,
        extensions: None,
        unknown: vec![RawChunk { tag: 0x31585858, payload: vec![1, 2, 3] }],
    };
    let bytes = m.save();
    let l = M2Model::load(&bytes).expect("load");
    assert_eq!(l.unknown.len(), 1);
    assert_eq!(l.unknown[0].tag, 0x31585858);
    assert_eq!(l.unknown[0].payload, vec![1, 2, 3]);
    assert_eq!(l.save(), bytes);
}

#[test]
fn truncated_payload_is_rejected() {
    // An 8-byte chunk header claiming a 100-byte payload with only 2 bytes
    // behind it: Truncated, not a panic or an out-of-bounds read.
    let mut bytes = header(2);
    w(&mut bytes, 0x454E4F42);
    w(&mut bytes, 100);
    bytes.extend_from_slice(&[0, 0]);
    assert_eq!(M2Model::load(&bytes), Err(ParseError::Truncated));
}

#[test]
fn short_header_is_truncated() {
    assert_eq!(M2Model::load(&[0x44, 0x4D]), Err(ParseError::Truncated));
}

#[test]
fn bad_magic_is_rejected() {
    let mut bytes = Vec::new();
    w(&mut bytes, 0xDEADBEEF);
    w(&mut bytes, 0);
    assert_eq!(M2Model::load(&bytes), Err(ParseError::InvalidMagic));
}

#[test]
fn unknown_ordinal_is_rejected() {
    let bytes = header(9);
    assert_eq!(M2Model::load(&bytes), Err(ParseError::UnknownVersion));
}

#[test]
fn duplicate_chunk_is_rejected() {
    let mut bytes = header(0);
    frame(&mut bytes, TAG_BONE, &[1, 0, 0]);
    frame(&mut bytes, TAG_BONE, &[1, 0, 0]);
    assert_eq!(M2Model::load(&bytes), Err(ParseError::DuplicateChunk));
}

#[test]
fn illegal_chunk_for_version_is_rejected() {
    // A physics file id chunk in a Classic file: the version forbids it.
    let mut bytes = header(0);
    frame(&mut bytes, TAG_PFID, &[7]);
    assert_eq!(M2Model::load(&bytes), Err(ParseError::IllegalChunkForVersion));
}

#[test]
fn sequences_use_packed_timestamps_before_cataclysm() {
    let mut bytes = header(0);
    frame(&mut bytes, 0x53514553, &[1, 9, 90 * 0x10000 + 10]);
    let l = M2Model::load(&bytes).expect("load");
    assert_eq!(
        l.sequences,
        Some(vec![M2Sequence { id: 9, start: 10, end: 90 }])
    );
}

#[test]
fn convert_to_own_version_is_identity() {
    let m = sample_model();
    let converter = M2Converter::new();
    let c = converter
        .convert(&m, M2Version::WrathOfTheLichKing)
        .expect("identity convert");
    assert_eq!(c.save(), m.save());
}

#[test]
fn convert_drops_forbidden_optional_chunk() {
    // The physics file id is forbidden in Classic and not flagged for
    // integrity: conversion drops it and succeeds, and validation of the
    // result reports nothing new.
    let m = sample_model();
    let converter = M2Converter::new();
    let c = converter.convert(&m, M2Version::Classic).expect("downgrade");
    assert_eq!(c.version, M2Version::Classic);
    assert_eq!(c.physics_file_id, None);
    assert!(c.validate().is_ok());
}

#[test]
fn convert_clears_texture_name_refs_on_downgrade() {
    let m = sample_model();
    let converter = M2Converter::new();
    let c = converter.convert(&m, M2Version::BurningCrusade).expect("downgrade");
    assert_eq!(
        c.textures,
        Some(vec![M2Texture { kind: 1, flags: 0, name_ref: 0 }])
    );
}

#[test]
fn convert_refuses_to_drop_integrity_chunk() {
    let mut m = sample_model();
    m.version = M2Version::Cataclysm;
    m.physics = Some(vec![0, 0]);
    let converter = M2Converter::new();
    assert_eq!(
        converter.convert(&m, M2Version::BurningCrusade),
        Err(ConversionError::CannotDropRequiredChunk)
    );
}

#[test]
fn convert_refuses_missing_required_chunk() {
    let m = sample_model();
    let converter = M2Converter::new();
    assert_eq!(
        converter.convert(&m, M2Version::MistsOfPandaria),
        Err(ConversionError::MissingRequiredChunk)
    );
}

#[test]
fn convert_reports_field_overflow() {
    let mut m = sample_model();
    m.sequences = Some(vec![M2Sequence { id: 1, start: 0, end: 0x12345 }]);
    let converter = M2Converter::new();
    assert_eq!(
        converter.convert(&m, M2Version::Classic),
        Err(ConversionError::FieldOverflow)
    );
}

#[test]
fn convert_synthesizes_extension_table_for_legion() {
    let mut m = sample_model();
    m.version = M2Version::MistsOfPandaria;
    m.physics = Some(vec![1, 2]);
    let converter = M2Converter::new();
    let c = converter.convert(&m, M2Version::Legion).expect("upgrade");
    assert_eq!(c.extensions, Some(vec![]));
}

#[test]
fn convert_reports_post_conversion_validation_failure() {
    let mut m = sample_model();
    m.attachments = Some(vec![M2Attachment { bone: 9, kind: 0 }]);
    let converter = M2Converter::new();
    assert_eq!(
        converter.convert(&m, M2Version::BurningCrusade),
        Err(ConversionError::PostConversionValidationFailed)
    );
}

#[test]
fn convert_in_place_is_transactional() {
    let mut m = sample_model();
    m.sequences = Some(vec![M2Sequence { id: 1, start: 0, end: 0x12345 }]);
    let before = m.save();
    assert_eq!(
        m.convert_to(M2Version::Classic),
        Err(ConversionError::FieldOverflow)
    );
    assert_eq!(m.save(), before);
    assert!(m.convert_to(M2Version::Cataclysm).is_ok());
    assert_eq!(m.version, M2Version::Cataclysm);
}

#[test]
fn trait_conversion_matches_converter() {
    let m = sample_model();
    let via_trait = m.convert_to_version(M2Version::Classic).expect("trait convert");
    let converter = M2Converter::new();
    let via_converter = converter.convert(&m, M2Version::Classic).expect("convert");
    assert_eq!(via_trait.save(), via_converter.save());
}

#[test]
fn validate_reports_dangling_bone_reference() {
    let mut m = sample_model();
    m.attachments = Some(vec![M2Attachment { bone: 7, kind: 0 }]);
    assert_eq!(
        m.validate(),
        Err(vec![ValidationError::DanglingReference])
    );
}

#[test]
fn validate_reports_out_of_bounds_texture_index() {
    let mut m = sample_model();
    m.materials = Some(vec![M2Material { texture: 3, blend: 0 }]);
    assert_eq!(
        m.validate(),
        Err(vec![ValidationError::OutOfBoundsIndex])
    );
}

#[test]
fn validate_reports_count_mismatch() {
    let mut m = sample_model();
    m.version = M2Version::Cataclysm;
    m.physics = Some(vec![0]);
    assert_eq!(m.validate(), Err(vec![ValidationError::CountMismatch]));
}

#[test]
fn validate_collects_every_finding() {
    let mut m = sample_model();
    m.version = M2Version::Cataclysm;
    m.attachments = Some(vec![M2Attachment { bone: 7, kind: 0 }]);
    m.materials = Some(vec![M2Material { texture: 3, blend: 0 }]);
    m.physics = Some(vec![0]);
    assert_eq!(
        m.validate(),
        Err(vec![
            ValidationError::DanglingReference,
            ValidationError::OutOfBoundsIndex,
            ValidationError::CountMismatch,
        ])
    );
}

#[test]
fn validate_passes_a_clean_model() {
    assert!(sample_model().validate().is_ok());
}

#[test]
fn attachment_frame_decodes() {
    let mut bytes = header(0);
    frame(&mut bytes, TAG_ATCH, &[1, 0, 11]);
    let l = M2Model::load(&bytes).expect("load");
    assert_eq!(l.attachments, Some(vec![M2Attachment { bone: 0, kind: 11 }]));
}

#[test]
fn expansion_names_resolve() {
    assert_eq!(
        M2Version::from_expansion_name("Classic"),
        Ok(M2Version::Classic)
    );
    assert_eq!(
        M2Version::from_expansion_name("3.3.5a"),
        Ok(M2Version::WrathOfTheLichKing)
    );
    assert_eq!(
        M2Version::from_expansion_name("MoP"),
        Ok(M2Version::MistsOfPandaria)
    );
    assert_eq!(
        M2Version::from_expansion_name("Legion"),
        Ok(M2Version::Legion)
    );
    assert_eq!(
        M2Version::from_expansion_name("Mists"),
        Err(ParseError::UnknownVersion)
    );
}
