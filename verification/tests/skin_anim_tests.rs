use wow_m2::anim::{
    AnimFile, AnimFormat, AnimKeyframe, AnimMetadata, AnimSection, AnimSectionHeader, AnimTrack,
    BoneAnimation,
};
use wow_m2::error::ParseError;
use wow_m2::skin::{Skin, SkinFormat, SkinSubmesh};
use wow_m2::version::M2Version;

fn words(ws: &[u32]) -> Vec<u8> {
    let mut out = Vec::new();
    for &w in ws {
        out.extend_from_slice(&w.to_le_bytes());
    }
    out
}

fn sample_skin(format: SkinFormat) -> Skin {
    Skin {
        format,
        indices: vec![0, 1, 2, 3],
        triangles: vec![0, 1, 2, 2, 1, 3],
        submeshes: vec![
            SkinSubmesh { id: 1, index_start: 0, index_count: 3 },
            SkinSubmesh { id: 2, index_start: 3, index_count: 3 },
        ],
    }
}

#[test]
fn skin_legacy_roundtrip() {
    let s = sample_skin(SkinFormat::Legacy);
    let bytes = s.save();
    let l = Skin::load(&bytes).expect("legacy load");
    assert_eq!(l.format, SkinFormat::Legacy);
    assert_eq!(l.indices, s.indices);
    assert_eq!(l.triangles, s.triangles);
    assert_eq!(l.submeshes, s.submeshes);
}

#[test]
fn skin_modern_roundtrip() {
    let s = sample_skin(SkinFormat::Modern);
    let bytes = s.save();
    let l = Skin::load(&bytes).expect("modern load");
    assert_eq!(l.format, SkinFormat::Modern);
    assert_eq!(l.indices, s.indices);
    assert_eq!(l.triangles, s.triangles);
    assert_eq!(l.submeshes, s.submeshes);
}

#[test]
fn skin_normalization_across_headers() {
    // The same three lists through either header layout load back equal.
    let legacy = Skin::load(&sample_skin(SkinFormat::Legacy).save()).expect("legacy");
    let modern = Skin::load(&sample_skin(SkinFormat::Modern).save()).expect("modern");
    assert_eq!(legacy.indices, modern.indices);
    assert_eq!(legacy.triangles, modern.triangles);
    assert_eq!(legacy.submeshes, modern.submeshes);
    assert_ne!(legacy.format, modern.format);
}

#[test]
fn skin_load_with_checks_magic() {
    let legacy_bytes = sample_skin(SkinFormat::Legacy).save();
    assert_eq!(
        Skin::load_with(&legacy_bytes, SkinFormat::Modern),
        Err(ParseError::InvalidMagic)
    );
    assert!(Skin::load_with(&legacy_bytes, SkinFormat::Legacy).is_ok());
}

#[test]
fn skin_truncated_is_rejected() {
    assert_eq!(Skin::load(&[1, 2, 3]), Err(ParseError::Truncated));
    // Counts demanding more words than the buffer holds.
    assert_eq!(Skin::load(&words(&[5, 0, 0])), Err(ParseError::Truncated));
}

#[test]
fn skin_validate_reports_out_of_range_submesh() {
    let good = Skin {
        format: SkinFormat::Legacy,
        indices: vec![0, 1, 2],
        triangles: vec![],
        submeshes: vec![SkinSubmesh { id: 1, index_start: 0, index_count: 3 }],
    };
    assert!(good.validate().is_ok());
    let bad = Skin {
        submeshes: vec![
            SkinSubmesh { id: 1, index_start: 2, index_count: 2 },
            SkinSubmesh { id: 2, index_start: 0, index_count: 3 },
        ],
        ..good
    };
    assert_eq!(
        bad.validate(),
        Err(vec![wow_m2::error::ValidationError::OutOfBoundsIndex])
    );
}

fn track(interp: u32, kfs: &[(u32, u32)]) -> AnimTrack {
    AnimTrack {
        interpolation: interp,
        keyframes: kfs
            .iter()
            .map(|&(time, value)| AnimKeyframe { time, value })
            .collect(),
    }
}

fn sample_legacy_anim() -> AnimFile {
    let bone = BoneAnimation {
        translation: track(1, &[(0, 10), (100, 20)]),
        rotation: track(1, &[(0, 5), (50, 6), (100, 7)]),
        scaling: track(0, &[(0, 1)]),
    };
    let section = AnimSection {
        header: AnimSectionHeader { id: 4, start: 0, end: 100 },
        bone_animations: vec![bone],
    };
    AnimFile {
        format: AnimFormat::Legacy,
        metadata: AnimMetadata::Legacy {
            file_size: 0,
            animation_count: 1,
            structure_hints: wow_m2::anim::StructureHints {
                appears_valid: true,
                estimated_blocks: 1,
                has_timestamps: true,
            },
        },
        sections: vec![section],
    }
}

fn assert_sections_eq(a: &[AnimSection], b: &[AnimSection]) {
    assert_eq!(a.len(), b.len());
    for (x, y) in a.iter().zip(b.iter()) {
        assert_eq!(x.header, y.header);
        assert_eq!(x.bone_animations.len(), y.bone_animations.len());
        for (p, q) in x.bone_animations.iter().zip(y.bone_animations.iter()) {
            assert_eq!(p.translation.interpolation, q.translation.interpolation);
            assert_eq!(p.translation.keyframes, q.translation.keyframes);
            assert_eq!(p.rotation.interpolation, q.rotation.interpolation);
            assert_eq!(p.rotation.keyframes, q.rotation.keyframes);
            assert_eq!(p.scaling.interpolation, q.scaling.interpolation);
            assert_eq!(p.scaling.keyframes, q.scaling.keyframes);
        }
    }
}

#[test]
fn anim_legacy_save_load_roundtrip() {
    let a = sample_legacy_anim();
    let bytes = a.save();
    let l = AnimFile::load(&bytes).expect("legacy anim load");
    assert_eq!(l.format, AnimFormat::Legacy);
    assert!(l.is_legacy_format());
    assert_eq!(l.animation_count(), 1);
    assert_sections_eq(&l.sections, &a.sections);
    match &l.metadata {
        AnimMetadata::Legacy { file_size, animation_count, structure_hints } => {
            assert_eq!(*file_size, bytes.len() as u32);
            assert_eq!(*animation_count, 1);
            assert!(structure_hints.appears_valid);
            assert_eq!(structure_hints.estimated_blocks, 1);
            assert!(structure_hints.has_timestamps);
        },
        AnimMetadata::Modern { .. } => panic!("expected legacy metadata"),
    }
}

#[test]
fn anim_modern_save_load_roundtrip() {
    let legacy = sample_legacy_anim();
    let modern = legacy.convert(M2Version::WrathOfTheLichKing);
    assert_eq!(modern.format, AnimFormat::Modern);
    assert!(!modern.is_legacy_format());
    let bytes = modern.save();
    let l = AnimFile::load(&bytes).expect("modern anim load");
    assert_eq!(l.format, AnimFormat::Modern);
    assert_sections_eq(&l.sections, &modern.sections);
}

#[test]
fn anim_format_preserving_convert_keeps_value() {
    // The target's required format equals the source format: the value
    // comes back with unchanged per-section keyframe data.
    let a = sample_legacy_anim();
    let c = a.convert(M2Version::Classic);
    assert_eq!(c.format, AnimFormat::Legacy);
    assert_sections_eq(&c.sections, &a.sections);
}

#[test]
fn anim_transcode_roundtrip_preserves_keyframes() {
    // Legacy to modern to legacy: keyframe counts and values survive; only
    // the addressing metadata is rebuilt.
    let a = sample_legacy_anim();
    let up = a.convert(M2Version::MistsOfPandaria);
    assert_eq!(up.format, AnimFormat::Modern);
    let down = up.convert(M2Version::BurningCrusade);
    assert_eq!(down.format, AnimFormat::Legacy);
    assert_sections_eq(&down.sections, &a.sections);
}

#[test]
fn anim_transcode_synthesizes_entry_table() {
    let a = sample_legacy_anim();
    let up = a.convert(M2Version::WrathOfTheLichKing);
    match &up.metadata {
        AnimMetadata::Modern { header, entries } => {
            assert_eq!(header.id_count, 1);
            assert_eq!(header.anim_entry_offset, 16);
            assert_eq!(entries.len(), 1);
            assert_eq!(entries[0].id, 4);
            // Header (16 bytes) plus one 12-byte entry.
            assert_eq!(entries[0].offset, 28);
            // 4 section header words + 3 tracks (2 + 2k words each).
            assert_eq!(entries[0].size, 4 * (4 + (2 + 4) + (2 + 6) + (2 + 2)));
        },
        AnimMetadata::Legacy { .. } => panic!("expected modern metadata"),
    }
}

#[test]
fn anim_memory_usage_counts_each_track_kind() {
    let a = sample_legacy_anim();
    let u = a.memory_usage();
    assert_eq!(u.sections, 1);
    assert_eq!(u.bone_animations, 1);
    assert_eq!(u.translation_keyframes, 2);
    assert_eq!(u.rotation_keyframes, 3);
    assert_eq!(u.scaling_keyframes, 1);
    assert_eq!(u.total_keyframes(), 6);
    assert_eq!(u.approximate_bytes, 16 * 2 + 20 * 3 + 16 * 1);
}

#[test]
fn anim_truncated_is_rejected() {
    // A lone section header promising a bone that never comes.
    assert_eq!(
        AnimFile::load(&words(&[1, 0, 100, 1])),
        Err(ParseError::Truncated)
    );
    // A byte count that is not a whole number of words.
    assert_eq!(AnimFile::load(&[1, 2, 3]), Err(ParseError::Truncated));
}

#[test]
fn anim_modern_entry_count_must_match_sections() {
    // One declared entry, two sections behind the table: rejected.
    let bytes = words(&[0x324D4641, 1, 1, 16, 9, 0, 0, 1, 0, 10, 0, 2, 0, 20, 0]);
    assert_eq!(AnimFile::load(&bytes), Err(ParseError::Truncated));
}

#[test]
fn anim_structure_hints_survive_transcode() {
    // An implausible legacy file keeps its lowered validity flag
    // recoverable after transcoding to the modern layout.
    let bytes = words(&[7, 90, 10, 0]);
    let legacy = AnimFile::load(&bytes).expect("legacy load");
    let modern = legacy.convert(M2Version::WrathOfTheLichKing);
    assert_eq!(modern.format, AnimFormat::Modern);
    let hints = modern.structure_hints();
    assert!(!hints.appears_valid);
    assert!(hints.has_timestamps);
    assert_eq!(hints.estimated_blocks, 1);
}

#[test]
fn anim_low_confidence_structure_still_loads() {
    // A section whose start is after its end parses, with the validity
    // flag lowered rather than an error raised.
    let bytes = words(&[7, 90, 10, 0]);
    let l = AnimFile::load(&bytes).expect("implausible but parseable");
    match &l.metadata {
        AnimMetadata::Legacy { structure_hints, .. } => {
            assert!(!structure_hints.appears_valid);
            assert!(structure_hints.has_timestamps);
        },
        AnimMetadata::Modern { .. } => panic!("expected legacy metadata"),
    }
}
