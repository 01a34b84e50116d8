use wow_m2::anim::{
    AnimFile, AnimFormat, AnimKeyframe, AnimMetadata, AnimSection, AnimSectionHeader, AnimTrack,
    BoneAnimation, StructureHints,
};
use wow_m2::chunks::{M2Bone, M2Material, M2Sequence, M2Texture};
use wow_m2::command::{execute, CommandError, CommandOutput, M2Commands};
use wow_m2::error::ParseError;
use wow_m2::model::M2Model;
use wow_m2::skin::{Skin, SkinFormat, SkinSubmesh};
use wow_m2::version::M2Version;

fn sample_model_bytes() -> Vec<u8> {
    let m = M2Model {
        version: M2Version::WrathOfTheLichKing,
        bones: Some(vec![M2Bone { parent: 0, flags: 0 }]),
        sequences: Some(vec![M2Sequence { id: 0, start: 0, end: 10 }]),
        textures: Some(vec![M2Texture { kind: 0, flags: 0, name_ref: 3 }]),
        materials: Some(vec![M2Material { texture: 0, blend: 1 }]),
        attachments: None,
        physics_file_id: Some(9),
        physics: None,
        extensions: None,
        unknown: vec![],
    };
    m.save()
}

#[test]
fn execute_info_reports_structure() {
    let out = execute(M2Commands::Info { data: sample_model_bytes(), detailed: true })
        .expect("info");
    match out {
        CommandOutput::ModelInfo { version, known_chunks, unknown_chunks } => {
            assert_eq!(version, M2Version::WrathOfTheLichKing);
            assert_eq!(known_chunks, 5);
            assert_eq!(unknown_chunks, 0);
        },
        _ => panic!("expected a model summary"),
    }
}

#[test]
fn execute_validate_reports_clean_model() {
    let out = execute(M2Commands::Validate { data: sample_model_bytes(), warnings: false })
        .expect("validate");
    match out {
        CommandOutput::ValidationReport { findings } => assert!(findings.is_empty()),
        _ => panic!("expected a validation report"),
    }
}

#[test]
fn execute_convert_produces_loadable_bytes() {
    let out = execute(M2Commands::Convert {
        input: sample_model_bytes(),
        version: String::from("Classic"),
    })
    .expect("convert");
    match out {
        CommandOutput::ConvertedModel { bytes } => {
            let m = M2Model::load(&bytes).expect("converted bytes load");
            assert_eq!(m.version, M2Version::Classic);
            assert_eq!(m.physics_file_id, None);
        },
        _ => panic!("expected converted model bytes"),
    }
}

#[test]
fn execute_rejects_unknown_version_name() {
    assert!(matches!(
        execute(M2Commands::Convert {
            input: sample_model_bytes(),
            version: String::from("Shadowlands"),
        }),
        Err(CommandError::Parse(ParseError::UnknownVersion))
    ));
}

#[test]
fn execute_surfaces_parse_errors() {
    assert!(matches!(
        execute(M2Commands::Info { data: vec![1, 2, 3], detailed: false }),
        Err(CommandError::Parse(ParseError::Truncated))
    ));
}

#[test]
fn execute_skin_commands() {
    let skin = Skin {
        format: SkinFormat::Modern,
        indices: vec![0, 1, 2],
        triangles: vec![0, 1, 2],
        submeshes: vec![SkinSubmesh { id: 1, index_start: 0, index_count: 3 }],
    };
    let bytes = skin.save();
    let info = execute(M2Commands::SkinInfo {
        data: bytes.clone(),
        detailed: false,
        old_format: false,
    })
    .expect("skin info");
    match info {
        CommandOutput::SkinReport { format, submeshes, indices, triangles } => {
            assert_eq!(format, SkinFormat::Modern);
            assert_eq!(submeshes, 1);
            assert_eq!(indices, 3);
            assert_eq!(triangles, 3);
        },
        _ => panic!("expected a skin report"),
    }
    let conv = execute(M2Commands::SkinConvert { input: bytes.clone(), version: String::from("MoP") })
        .expect("skin convert");
    match conv {
        CommandOutput::ConvertedSkin { bytes: out } => assert_eq!(out, bytes),
        _ => panic!("expected skin bytes"),
    }
}

#[test]
fn execute_skin_convert_applies_target_header_variant() {
    // A modern-header skin converted to an old version is re-encoded under
    // the legacy fixed header, lists preserved.
    let skin = Skin {
        format: SkinFormat::Modern,
        indices: vec![4, 5, 6],
        triangles: vec![0, 1, 2],
        submeshes: vec![SkinSubmesh { id: 7, index_start: 0, index_count: 3 }],
    };
    let conv = execute(M2Commands::SkinConvert {
        input: skin.save(),
        version: String::from("Classic"),
    })
    .expect("skin downgrade");
    match conv {
        CommandOutput::ConvertedSkin { bytes } => {
            let l = Skin::load(&bytes).expect("reload");
            assert_eq!(l.format, SkinFormat::Legacy);
            assert_eq!(l.indices, skin.indices);
            assert_eq!(l.triangles, skin.triangles);
            assert_eq!(l.submeshes, skin.submeshes);
        },
        _ => panic!("expected skin bytes"),
    }
}

#[test]
fn execute_skin_info_honors_mode_flag() {
    let legacy = Skin {
        format: SkinFormat::Legacy,
        indices: vec![1, 2],
        triangles: vec![0],
        submeshes: vec![],
    };
    let bytes = legacy.save();
    // Forcing the legacy parse succeeds on a legacy buffer.
    let info = execute(M2Commands::SkinInfo { data: bytes.clone(), detailed: false, old_format: true })
        .expect("forced legacy parse");
    match info {
        CommandOutput::SkinReport { format, indices, .. } => {
            assert_eq!(format, SkinFormat::Legacy);
            assert_eq!(indices, 2);
        },
        _ => panic!("expected a skin report"),
    }
    // Forcing the legacy parse on a modern buffer reads its magic word as
    // a count and fails, where auto-detection succeeds.
    let modern_bytes = Skin { format: SkinFormat::Modern, ..legacy }.save();
    assert!(matches!(
        execute(M2Commands::SkinInfo { data: modern_bytes.clone(), detailed: false, old_format: true }),
        Err(CommandError::Parse(ParseError::Truncated))
    ));
    assert!(execute(M2Commands::SkinInfo { data: modern_bytes, detailed: false, old_format: false })
        .is_ok());
}

#[test]
fn execute_anim_commands() {
    let anim = AnimFile {
        format: AnimFormat::Legacy,
        metadata: AnimMetadata::Legacy {
            file_size: 0,
            animation_count: 1,
            structure_hints: StructureHints {
                appears_valid: true,
                estimated_blocks: 1,
                has_timestamps: true,
            },
        },
        sections: vec![AnimSection {
            header: AnimSectionHeader { id: 0, start: 0, end: 50 },
            bone_animations: vec![BoneAnimation {
                translation: AnimTrack {
                    interpolation: 1,
                    keyframes: vec![AnimKeyframe { time: 0, value: 1 }],
                },
                rotation: AnimTrack { interpolation: 0, keyframes: vec![] },
                scaling: AnimTrack { interpolation: 0, keyframes: vec![] },
            }],
        }],
    };
    let bytes = anim.save();
    let info = execute(M2Commands::AnimInfo { data: bytes.clone(), detailed: true })
        .expect("anim info");
    match info {
        CommandOutput::AnimReport { format, sections, usage } => {
            assert_eq!(format, AnimFormat::Legacy);
            assert_eq!(sections, 1);
            assert_eq!(usage.translation_keyframes, 1);
            assert_eq!(usage.total_keyframes(), 1);
        },
        _ => panic!("expected an anim report"),
    }
    let conv = execute(M2Commands::AnimConvert { input: bytes, version: String::from("WotLK") })
        .expect("anim convert");
    match conv {
        CommandOutput::ConvertedAnim { bytes: out } => {
            let l = AnimFile::load(&out).expect("converted anim load");
            assert_eq!(l.format, AnimFormat::Modern);
            assert_eq!(l.animation_count(), 1);
        },
        _ => panic!("expected anim bytes"),
    }
}
