use wow_m2::anim::AnimFile;
use wow_m2::chunks::{M2Bone, M2Sequence, TAG_BONE};
use wow_m2::convert::M2Converter;
use wow_m2::error::ParseError;
use wow_m2::model::M2Model;
use wow_m2::skin::{Skin, SkinFormat};
use wow_m2::version::M2Version;

fn w(out: &mut Vec<u8>, x: u32) {
    out.extend_from_slice(&x.to_le_bytes());
}

fn empty_model(version: M2Version) -> M2Model {
    M2Model {
        version,
        bones: None,
        sequences: None,
        textures: None,
        materials: None,
        attachments: None,
        physics_file_id: None,
        physics: None,
        extensions: None,
        unknown: vec![],
    }
}

#[test]
fn empty_model_roundtrip() {
    let m = empty_model(M2Version::Classic);
    let bytes = m.save();
    assert_eq!(bytes.len(), 8);
    let l = M2Model::load(&bytes).expect("empty model load");
    assert_eq!(l, m);
}

#[test]
fn legion_model_roundtrip() {
    let mut m = empty_model(M2Version::Legion);
    m.bones = Some(vec![M2Bone { parent: 0, flags: 0 }]);
    m.physics = Some(vec![3]);
    m.extensions = Some(vec![10, 20]);
    let bytes = m.save();
    let l = M2Model::load(&bytes).expect("legion load");
    assert_eq!(l, m);
}

#[test]
fn packed_timestamp_boundary_converts() {
    let mut m = empty_model(M2Version::WrathOfTheLichKing);
    m.sequences = Some(vec![M2Sequence { id: 1, start: 0xFFFF, end: 0xFFFF }]);
    let converter = M2Converter::new();
    let c = converter.convert(&m, M2Version::Classic).expect("boundary fits");
    assert_eq!(c.sequences, m.sequences);
    let l = M2Model::load(&c.save()).expect("reload");
    assert_eq!(l.sequences, m.sequences);
}

#[test]
fn misaligned_chunk_payload_is_rejected() {
    // A known chunk whose payload is not a whole number of words.
    let mut bytes = Vec::new();
    w(&mut bytes, 0x31324D44);
    w(&mut bytes, 0);
    w(&mut bytes, TAG_BONE);
    w(&mut bytes, 3);
    bytes.extend_from_slice(&[0, 0, 0]);
    assert_eq!(M2Model::load(&bytes), Err(ParseError::Truncated));
}

#[test]
fn bone_count_word_must_match_payload() {
    let mut bytes = Vec::new();
    w(&mut bytes, 0x31324D44);
    w(&mut bytes, 0);
    w(&mut bytes, TAG_BONE);
    w(&mut bytes, 12);
    w(&mut bytes, 5);
    w(&mut bytes, 0);
    w(&mut bytes, 0);
    assert_eq!(M2Model::load(&bytes), Err(ParseError::Truncated));
}

#[test]
fn empty_skin_roundtrip() {
    let s = Skin { format: SkinFormat::Legacy, indices: vec![], triangles: vec![], submeshes: vec![] };
    let l = Skin::load(&s.save()).expect("empty skin");
    assert_eq!(l, s);
}

#[test]
fn empty_anim_buffer_is_a_legacy_file_with_no_sections() {
    let l = AnimFile::load(&[]).expect("empty buffer");
    assert_eq!(l.animation_count(), 0);
    assert!(l.is_legacy_format());
    let u = l.memory_usage();
    assert_eq!(u.total_keyframes(), 0);
    assert_eq!(u.approximate_bytes, 0);
}

#[test]
fn modern_anim_with_truncated_entry_table_is_rejected() {
    let mut bytes = Vec::new();
    w(&mut bytes, 0x324D4641);
    w(&mut bytes, 1);
    w(&mut bytes, 5);
    w(&mut bytes, 16);
    w(&mut bytes, 0);
    assert_eq!(AnimFile::load(&bytes), Err(ParseError::Truncated));
}
