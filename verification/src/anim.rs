//! The keyframe-animation format: two incompatible on-disk encodings of the
//! same semantic data. The modern layout opens with a magic word and an
//! explicit entry table; the legacy layout is a bare run of section blocks
//! with no self-describing header, detected heuristically.
//!
//! Word layouts:
//! - track: `[interpolation, keyframe_count]`, then per keyframe
//!   `[time, value]`.
//! - bone: translation track, rotation track, scaling track, in that order.
//! - section: `[id, start, end, bone_count]`, then the bone records.
//! - legacy file: the sections, back to back, to the end of the buffer.
//! - modern file: `[magic, version, id_count, entry_offset]`, then per entry
//!   `[id, offset, size]`, then the sections, back to back.

use crate::error::ParseError;
use crate::version::M2Version;
use crate::words::{dec_words, decode_words, enc_words, encode_words};
use vstd::prelude::*;

verus! {

/// The magic word that opens a modern animation file.
pub const ANIM_MAGIC: u32 = 0x324D4641;

/// The format revision written into synthesized modern headers.
pub const ANIM_VERSION: u32 = 1;

/// Approximate in-memory byte cost per keyframe, by track kind: a
/// translation or scaling keyframe carries a time and a vector, a rotation
/// keyframe a time and a quaternion.
pub const TRANSLATION_KF_BYTES: u64 = 16;

pub const ROTATION_KF_BYTES: u64 = 20;

pub const SCALING_KF_BYTES: u64 = 16;

/// Which on-disk encoding a file uses.
#[derive(Clone, Copy, Debug, PartialEq, Eq, Structural)]
pub enum AnimFormat {
    Legacy,
    Modern,
}

/// One keyframe: a timestamp and a packed value sample.
#[derive(Clone, Copy, Debug, PartialEq, Eq, Structural)]
pub struct AnimKeyframe {
    pub time: u32,
    pub value: u32,
}

/// One animation track: an interpolation tag and its keyframes.
#[derive(Clone, Debug, PartialEq, Eq)]
pub struct AnimTrack {
    pub interpolation: u32,
    pub keyframes: Vec<AnimKeyframe>,
}

/// Mathematical image of a track.
pub struct TrackView {
    pub interpolation: u32,
    pub keyframes: Seq<AnimKeyframe>,
}

impl View for AnimTrack {
    type V = TrackView;

    open spec fn view(&self) -> TrackView {
        TrackView { interpolation: self.interpolation, keyframes: self.keyframes@ }
    }
}

/// The three tracks of one bone.
#[derive(Clone, Debug, PartialEq, Eq)]
pub struct BoneAnimation {
    pub translation: AnimTrack,
    pub rotation: AnimTrack,
    pub scaling: AnimTrack,
}

/// Mathematical image of a bone's tracks.
pub struct BoneAnimationView {
    pub translation: TrackView,
    pub rotation: TrackView,
    pub scaling: TrackView,
}

impl View for BoneAnimation {
    type V = BoneAnimationView;

    open spec fn view(&self) -> BoneAnimationView {
        BoneAnimationView {
            translation: self.translation@,
            rotation: self.rotation@,
            scaling: self.scaling@,
        }
    }
}

/// A section's fixed header: id and the time range it covers.
#[derive(Clone, Copy, Debug, PartialEq, Eq, Structural)]
pub struct AnimSectionHeader {
    pub id: u32,
    pub start: u32,
    pub end: u32,
}

/// One animation section: a header and per-bone tracks.
#[derive(Clone, Debug, PartialEq, Eq)]
pub struct AnimSection {
    pub header: AnimSectionHeader,
    pub bone_animations: Vec<BoneAnimation>,
}

/// Mathematical image of a section.
pub struct AnimSectionView {
    pub header: AnimSectionHeader,
    pub bone_animations: Seq<BoneAnimationView>,
}

impl View for AnimSection {
    type V = AnimSectionView;

    open spec fn view(&self) -> AnimSectionView {
        AnimSectionView {
            header: self.header,
            bone_animations: self.bone_animations@.map_values(|b: BoneAnimation| b@),
        }
    }
}

/// Structure-validity heuristics for a legacy file, whose layout has no
/// self-describing header. Never a hard guarantee: a low-confidence file
/// still loads, and the flag travels with the data.
#[derive(Clone, Copy, Debug, PartialEq, Eq, Structural)]
pub struct StructureHints {
    /// Every section's time range is plausible (start not after end).
    pub appears_valid: bool,
    /// How many section blocks the detector found.
    pub estimated_blocks: u32,
    /// Whether any timestamp-shaped value was seen.
    pub has_timestamps: bool,
}

/// A modern file's explicit header.
#[derive(Clone, Copy, Debug, PartialEq, Eq, Structural)]
pub struct AnimHeader {
    pub version: u32,
    pub id_count: u32,
    pub anim_entry_offset: u32,
}

/// One entry of a modern file's table: an id locating one section.
#[derive(Clone, Copy, Debug, PartialEq, Eq, Structural)]
pub struct AnimEntry {
    pub id: u32,
    pub offset: u32,
    pub size: u32,
}

/// Format-specific metadata.
#[derive(Clone, Debug, PartialEq, Eq)]
pub enum AnimMetadata {
    Legacy { file_size: u32, animation_count: u32, structure_hints: StructureHints },
    Modern { header: AnimHeader, entries: Vec<AnimEntry> },
}

/// Mathematical image of the metadata.
pub enum AnimMetadataView {
    Legacy { file_size: u32, animation_count: u32, structure_hints: StructureHints },
    Modern { header: AnimHeader, entries: Seq<AnimEntry> },
}

impl View for AnimMetadata {
    type V = AnimMetadataView;

    open spec fn view(&self) -> AnimMetadataView {
        match self {
            AnimMetadata::Legacy { file_size, animation_count, structure_hints } => {
                AnimMetadataView::Legacy {
                    file_size: *file_size,
                    animation_count: *animation_count,
                    structure_hints: *structure_hints,
                }
            },
            AnimMetadata::Modern { header, entries } => {
                AnimMetadataView::Modern { header: *header, entries: entries@ }
            },
        }
    }
}

/// A decoded animation file.
#[derive(Debug, PartialEq, Eq)]
pub struct AnimFile {
    pub format: AnimFormat,
    pub metadata: AnimMetadata,
    pub sections: Vec<AnimSection>,
}

/// Mathematical image of an animation file.
#[verifier::ext_equal]
pub struct AnimFileView {
    pub format: AnimFormat,
    pub metadata: AnimMetadataView,
    pub sections: Seq<AnimSectionView>,
}

impl View for AnimFile {
    type V = AnimFileView;

    open spec fn view(&self) -> AnimFileView {
        AnimFileView {
            format: self.format,
            metadata: self.metadata@,
            sections: self.sections@.map_values(|s: AnimSection| s@),
        }
    }
}

// ---------------------------------------------------------------------------
// Word-level codecs.
// ---------------------------------------------------------------------------

pub open spec fn enc_track(t: TrackView) -> Seq<u32> {
    seq![t.interpolation, t.keyframes.len() as u32] + Seq::new(
        2 * t.keyframes.len(),
        |j: int| if j % 2 == 0 {
            t.keyframes[j / 2].time
        } else {
            t.keyframes[j / 2].value
        },
    )
}

/// Reads one track from the front; yields the track and the rest.
pub open spec fn dec_track(ws: Seq<u32>) -> Option<(TrackView, Seq<u32>)> {
    if ws.len() < 2 {
        None
    } else {
        let n = ws[1] as int;
        if ws.len() < 2 + 2 * n {
            None
        } else {
            Some(
                (
                    TrackView {
                        interpolation: ws[0],
                        keyframes: Seq::new(
                            n as nat,
                            |i: int| AnimKeyframe { time: ws[2 + 2 * i], value: ws[3 + 2 * i] },
                        ),
                    },
                    ws.skip(2 + 2 * n),
                ),
            )
        }
    }
}

pub open spec fn enc_bone(b: BoneAnimationView) -> Seq<u32> {
    enc_track(b.translation) + (enc_track(b.rotation) + enc_track(b.scaling))
}

/// Reads one bone's three tracks from the front.
pub open spec fn dec_bone(ws: Seq<u32>) -> Option<(BoneAnimationView, Seq<u32>)> {
    match dec_track(ws) {
        Some(p1) => match dec_track(p1.1) {
            Some(p2) => match dec_track(p2.1) {
                Some(p3) => Some(
                    (
                        BoneAnimationView {
                            translation: p1.0,
                            rotation: p2.0,
                            scaling: p3.0,
                        },
                        p3.1,
                    ),
                ),
                None => None,
            },
            None => None,
        },
        None => None,
    }
}

pub open spec fn enc_bones(bs: Seq<BoneAnimationView>) -> Seq<u32>
    decreases bs.len(),
{
    if bs.len() == 0 {
        Seq::empty()
    } else {
        enc_bone(bs[0]) + enc_bones(bs.drop_first())
    }
}

/// Reads `n` bone records from the front.
pub open spec fn dec_bones(ws: Seq<u32>, n: int) -> Option<(Seq<BoneAnimationView>, Seq<u32>)>
    decreases n,
{
    if n <= 0 {
        Some((Seq::empty(), ws))
    } else {
        match dec_bone(ws) {
            Some(p) => match dec_bones(p.1, n - 1) {
                Some(q) => Some((seq![p.0] + q.0, q.1)),
                None => None,
            },
            None => None,
        }
    }
}

pub open spec fn enc_section(s: AnimSectionView) -> Seq<u32> {
    seq![
        s.header.id,
        s.header.start,
        s.header.end,
        s.bone_animations.len() as u32,
    ] + enc_bones(s.bone_animations)
}

/// Reads one section from the front.
pub open spec fn dec_section(ws: Seq<u32>) -> Option<(AnimSectionView, Seq<u32>)> {
    if ws.len() < 4 {
        None
    } else {
        match dec_bones(ws.skip(4), ws[3] as int) {
            Some(p) => Some(
                (
                    AnimSectionView {
                        header: AnimSectionHeader { id: ws[0], start: ws[1], end: ws[2] },
                        bone_animations: p.0,
                    },
                    p.1,
                ),
            ),
            None => None,
        }
    }
}

pub open spec fn enc_sections(ss: Seq<AnimSectionView>) -> Seq<u32>
    decreases ss.len(),
{
    if ss.len() == 0 {
        Seq::empty()
    } else {
        enc_section(ss[0]) + enc_sections(ss.drop_first())
    }
}

/// Reads sections until the words are exhausted. A section that consumes
/// nothing would be a parser bug; the guard refuses it.
pub open spec fn dec_sections(ws: Seq<u32>) -> Option<Seq<AnimSectionView>>
    decreases ws.len(),
{
    if ws.len() == 0 {
        Some(Seq::empty())
    } else {
        match dec_section(ws) {
            Some(p) => if p.1.len() < ws.len() {
                match dec_sections(p.1) {
                    Some(ss) => Some(seq![p.0] + ss),
                    None => None,
                }
            } else {
                None
            },
            None => None,
        }
    }
}

// ---------------------------------------------------------------------------
// Round-trip lemmas: decoding inverts encoding, with anything after.
// ---------------------------------------------------------------------------

/// A track whose keyframe count fits its count word.
pub open spec fn wf_track(t: TrackView) -> bool {
    t.keyframes.len() <= u32::MAX
}

pub open spec fn wf_bone(b: BoneAnimationView) -> bool {
    wf_track(b.translation) && wf_track(b.rotation) && wf_track(b.scaling)
}

pub open spec fn wf_section(s: AnimSectionView) -> bool {
    &&& s.bone_animations.len() <= u32::MAX
    &&& forall|i: int| 0 <= i < s.bone_animations.len() ==> wf_bone(#[trigger] s.bone_animations[i])
}

pub open spec fn wf_sections(ss: Seq<AnimSectionView>) -> bool {
    forall|i: int| 0 <= i < ss.len() ==> wf_section(#[trigger] ss[i])
}

pub proof fn lemma_track_roundtrip(t: TrackView, rest: Seq<u32>)
    requires
        wf_track(t),
    ensures
        dec_track(enc_track(t) + rest) == Some((t, rest)),
{
    let ws = enc_track(t) + rest;
    let n = t.keyframes.len() as int;
    assert(ws[0] == t.interpolation);
    assert(ws[1] == t.keyframes.len() as u32);
    let d = dec_track(ws)->Some_0;
    assert forall|i: int| 0 <= i < n implies #[trigger] d.0.keyframes[i] == t.keyframes[i] by {
        assert(ws[2 + 2 * i] == t.keyframes[i].time);
        assert(ws[3 + 2 * i] == t.keyframes[i].value);
    }
    assert(d.0.keyframes =~= t.keyframes);
    assert(ws.skip(2 + 2 * n) =~= rest);
}

pub proof fn lemma_bone_roundtrip(b: BoneAnimationView, rest: Seq<u32>)
    requires
        wf_bone(b),
    ensures
        dec_bone(enc_bone(b) + rest) == Some((b, rest)),
{
    let ws = enc_bone(b) + rest;
    assert(ws =~= enc_track(b.translation) + (enc_track(b.rotation) + (enc_track(b.scaling)
        + rest)));
    lemma_track_roundtrip(b.translation, enc_track(b.rotation) + (enc_track(b.scaling) + rest));
    lemma_track_roundtrip(b.rotation, enc_track(b.scaling) + rest);
    lemma_track_roundtrip(b.scaling, rest);
}

pub proof fn lemma_bones_roundtrip(bs: Seq<BoneAnimationView>, rest: Seq<u32>)
    requires
        forall|i: int| 0 <= i < bs.len() ==> wf_bone(#[trigger] bs[i]),
    ensures
        dec_bones(enc_bones(bs) + rest, bs.len() as int) == Some((bs, rest)),
    decreases bs.len(),
{
    if bs.len() == 0 {
        assert(enc_bones(bs) + rest =~= rest);
        assert(dec_bones(rest, 0) matches Some(p) && p.0 =~= bs && p.1 == rest);
    } else {
        let tail = bs.drop_first();
        assert(enc_bones(bs) + rest =~= enc_bone(bs[0]) + (enc_bones(tail) + rest));
        lemma_bone_roundtrip(bs[0], enc_bones(tail) + rest);
        lemma_bones_roundtrip(tail, rest);
        assert(dec_bones(enc_bones(bs) + rest, bs.len() as int) matches Some(p) && p.0 =~= bs
            && p.1 == rest);
    }
}

pub proof fn lemma_section_roundtrip(s: AnimSectionView, rest: Seq<u32>)
    requires
        wf_section(s),
    ensures
        dec_section(enc_section(s) + rest) == Some((s, rest)),
{
    let ws = enc_section(s) + rest;
    assert(ws[0] == s.header.id);
    assert(ws[1] == s.header.start);
    assert(ws[2] == s.header.end);
    assert(ws[3] == s.bone_animations.len() as u32);
    assert(ws.skip(4) =~= enc_bones(s.bone_animations) + rest);
    lemma_bones_roundtrip(s.bone_animations, rest);
    assert(dec_section(ws) matches Some(p) && p.0 =~= s && p.1 == rest);
}

/// Every encoded section opens with its four header words.
pub proof fn lemma_enc_section_len(s: AnimSectionView)
    ensures
        enc_section(s).len() >= 4,
{
}

pub proof fn lemma_sections_roundtrip(ss: Seq<AnimSectionView>)
    requires
        wf_sections(ss),
    ensures
        dec_sections(enc_sections(ss)) == Some(ss),
    decreases ss.len(),
{
    if ss.len() == 0 {
        assert(dec_sections(enc_sections(ss)) matches Some(x) && x =~= ss);
    } else {
        let tail = ss.drop_first();
        let ws = enc_sections(ss);
        assert(ws =~= enc_section(ss[0]) + enc_sections(tail));
        lemma_section_roundtrip(ss[0], enc_sections(tail));
        lemma_enc_section_len(ss[0]);
        lemma_sections_roundtrip(tail);
        assert(ws.len() >= 4 + enc_sections(tail).len());
        assert(dec_sections(ws) matches Some(x) && x =~= ss);
    }
}

// ---------------------------------------------------------------------------
// Whole-file layouts, detection, and conversion.
// ---------------------------------------------------------------------------

/// The entry-table words of a modern file.
pub open spec fn enc_entries(es: Seq<AnimEntry>) -> Seq<u32> {
    Seq::new(
        3 * es.len(),
        |j: int| if j % 3 == 0 {
            es[j / 3].id
        } else if j % 3 == 1 {
            es[j / 3].offset
        } else {
            es[j / 3].size
        },
    )
}

/// Time-range plausibility across sections.
pub open spec fn spec_appears_valid(ss: Seq<AnimSectionView>) -> bool {
    forall|i: int| 0 <= i < ss.len() ==> (#[trigger] ss[i]).header.start <= ss[i].header.end
}

/// Whether any timestamp-shaped value occurs.
pub open spec fn spec_has_timestamps(ss: Seq<AnimSectionView>) -> bool {
    exists|i: int| 0 <= i < ss.len() && (#[trigger] ss[i]).header.end > 0
}

/// The legacy metadata derived by the heuristic detector for given
/// sections and source size.
pub open spec fn spec_legacy_metadata(ss: Seq<AnimSectionView>, file_size: u32) -> AnimMetadataView {
    AnimMetadataView::Legacy {
        file_size,
        animation_count: clamp32(ss.len() as u64),
        structure_hints: StructureHints {
            appears_valid: spec_appears_valid(ss),
            estimated_blocks: clamp32(ss.len() as u64),
            has_timestamps: spec_has_timestamps(ss),
        },
    }
}

/// The whole load. The modern header is tried first: a leading magic word
/// selects the explicit-table layout; anything else falls back to the
/// legacy heuristic parse, whose confidence lands in the structure hints.
pub open spec fn spec_parse_anim(b: Seq<u8>) -> Result<AnimFileView, ParseError> {
    match dec_words(b) {
        Some(ws) => if ws.len() >= 4 && ws[0] == ANIM_MAGIC {
            spec_parse_modern(ws)
        } else {
            spec_parse_legacy(ws, b.len() as int)
        },
        None => Err(ParseError::Truncated),
    }
}

/// A modern file must carry exactly one entry per section: the declared
/// id count sizes the entry table, and the sections that follow it must
/// number the same.
pub open spec fn spec_parse_modern(ws: Seq<u32>) -> Result<AnimFileView, ParseError> {
    let id_count = ws[2] as int;
    if ws.len() < 4 + 3 * id_count {
        Err(ParseError::Truncated)
    } else {
        let entries = Seq::new(
            id_count as nat,
            |i: int| AnimEntry {
                id: ws[4 + 3 * i],
                offset: ws[5 + 3 * i],
                size: ws[6 + 3 * i],
            },
        );
        match dec_sections(ws.skip(4 + 3 * id_count)) {
            Some(ss) => if ss.len() == id_count {
                Ok(
                    AnimFileView {
                        format: AnimFormat::Modern,
                        metadata: AnimMetadataView::Modern {
                            header: AnimHeader {
                                version: ws[1],
                                id_count: ws[2],
                                anim_entry_offset: ws[3],
                            },
                            entries,
                        },
                        sections: ss,
                    },
                )
            } else {
                Err(ParseError::Truncated)
            },
            None => Err(ParseError::Truncated),
        }
    }
}

pub open spec fn spec_parse_legacy(ws: Seq<u32>, byte_len: int) -> Result<
    AnimFileView,
    ParseError,
> {
    match dec_sections(ws) {
        Some(ss) => Ok(
            AnimFileView {
                format: AnimFormat::Legacy,
                metadata: spec_legacy_metadata(ss, clamp32(byte_len as u64)),
                sections: ss,
            },
        ),
        None => Err(ParseError::Truncated),
    }
}

/// Which encoding each version requires: the explicit-table layout exists
/// from Wrath on, earlier releases use the legacy block layout.
pub open spec fn spec_required_format(v: M2Version) -> AnimFormat {
    if v.spec_ordinal() >= 2 {
        AnimFormat::Modern
    } else {
        AnimFormat::Legacy
    }
}

pub fn required_format(v: M2Version) -> (r: AnimFormat)
    ensures
        r == spec_required_format(v),
{
    if v.ordinal() >= 2 {
        AnimFormat::Modern
    } else {
        AnimFormat::Legacy
    }
}


// ---------------------------------------------------------------------------
// Saturating arithmetic for size estimates.
// ---------------------------------------------------------------------------

/// Saturating 64-bit addition.
pub open spec fn sat_add(a: u64, b: u64) -> u64 {
    if a + b > u64::MAX {
        u64::MAX
    } else {
        (a + b) as u64
    }
}

/// Saturating 64-bit multiplication.
pub open spec fn sat_mul(a: u64, b: u64) -> u64 {
    if a * b > u64::MAX {
        u64::MAX
    } else {
        (a * b) as u64
    }
}

/// Clamp to the 32-bit range.
pub open spec fn clamp32(x: u64) -> u32 {
    if x > u32::MAX {
        u32::MAX
    } else {
        x as u32
    }
}

pub fn sat_add_u64(a: u64, b: u64) -> (r: u64)
    ensures
        r == sat_add(a, b),
{
    if b > u64::MAX - a {
        u64::MAX
    } else {
        a + b
    }
}

pub fn sat_mul_u64(a: u64, b: u64) -> (r: u64)
    ensures
        r == sat_mul(a, b),
{
    if a == 0 {
        proof {
            assert(a * b == 0) by (nonlinear_arith)
                requires
                    a == 0,
            ;
        }
        0
    } else if b > u64::MAX / a {
        proof {
            assert(a * b > u64::MAX) by (nonlinear_arith)
                requires
                    a >= 1,
                    b > u64::MAX / a,
                    u64::MAX / a == ((u64::MAX as int) / (a as int)),
            ;
        }
        u64::MAX
    } else {
        proof {
            assert(a * b <= u64::MAX) by (nonlinear_arith)
                requires
                    a >= 1,
                    b <= u64::MAX / a,
                    u64::MAX / a == ((u64::MAX as int) / (a as int)),
            ;
        }
        a * b
    }
}

pub fn clamp32_u64(x: u64) -> (r: u32)
    ensures
        r == clamp32(x),
{
    if x > u32::MAX as u64 {
        u32::MAX
    } else {
        #[verifier::truncate] (x as u32)
    }
}

// ---------------------------------------------------------------------------
// Word counts, for the synthesized entry table.
// ---------------------------------------------------------------------------

/// Words one track occupies, saturating.
pub open spec fn spec_track_words(t: TrackView) -> u64 {
    sat_add(2, sat_mul(2, t.keyframes.len() as u64))
}

/// Words one bone record occupies, saturating.
pub open spec fn spec_bone_words(b: BoneAnimationView) -> u64 {
    sat_add(
        spec_track_words(b.translation),
        sat_add(spec_track_words(b.rotation), spec_track_words(b.scaling)),
    )
}

/// Words of the bone records from position `i` on, saturating.
pub open spec fn spec_bones_words(bs: Seq<BoneAnimationView>, i: int) -> u64
    decreases bs.len() - i,
{
    if i < 0 || i >= bs.len() {
        0
    } else {
        sat_add(spec_bone_words(bs[i]), spec_bones_words(bs, i + 1))
    }
}

/// Words one section occupies, saturating.
pub open spec fn spec_section_words(s: AnimSectionView) -> u64 {
    sat_add(4, spec_bones_words(s.bone_animations, 0))
}

/// Byte offset of section `i` in a synthesized modern layout: header and
/// entry table first, then the sections back to back; saturating.
pub open spec fn spec_entry_offset(ss: Seq<AnimSectionView>, i: int) -> u64
    decreases i,
{
    if i <= 0 {
        sat_add(16, sat_mul(12, ss.len() as u64))
    } else {
        sat_add(spec_entry_offset(ss, i - 1), sat_mul(4, spec_section_words(ss[i - 1])))
    }
}

/// The entry table synthesized for sections when transcoding to the
/// modern layout: the detected block structure becomes authoritative.
pub open spec fn spec_synth_entries(ss: Seq<AnimSectionView>) -> Seq<AnimEntry> {
    Seq::new(
        ss.len(),
        |i: int| AnimEntry {
            id: ss[i].header.id,
            offset: clamp32(spec_entry_offset(ss, i)),
            size: clamp32(sat_mul(4, spec_section_words(ss[i]))),
        },
    )
}

// ---------------------------------------------------------------------------
// Conversion between the two encodings.
// ---------------------------------------------------------------------------

/// The converted file. Conversion never fails: a matching format is
/// returned as an equal value; otherwise the sections are carried across
/// unchanged and only the metadata is rebuilt. Moving to the legacy layout
/// keeps the semantic keyframe data and loses only the explicit addressing
/// metadata.
pub open spec fn spec_anim_convert(a: AnimFileView, target: M2Version) -> AnimFileView {
    if a.format == spec_required_format(target) {
        a
    } else if spec_required_format(target) == AnimFormat::Modern {
        AnimFileView {
            format: AnimFormat::Modern,
            metadata: AnimMetadataView::Modern {
                header: AnimHeader {
                    version: ANIM_VERSION,
                    id_count: clamp32(a.sections.len() as u64),
                    anim_entry_offset: 16,
                },
                entries: spec_synth_entries(a.sections),
            },
            sections: a.sections,
        }
    } else {
        AnimFileView {
            format: AnimFormat::Legacy,
            metadata: spec_legacy_metadata(
                a.sections,
                clamp32(sat_mul(4, spec_sections_words(a.sections, 0))),
            ),
            sections: a.sections,
        }
    }
}

/// Words of the sections from position `i` on, saturating.
pub open spec fn spec_sections_words(ss: Seq<AnimSectionView>, i: int) -> u64
    decreases ss.len() - i,
{
    if i < 0 || i >= ss.len() {
        0
    } else {
        sat_add(spec_section_words(ss[i]), spec_sections_words(ss, i + 1))
    }
}

/// A conversion of a well-formed file is well-formed: the synthesized
/// modern metadata carries exactly one entry per section.
pub proof fn lemma_anim_convert_wf(a: AnimFileView, target: M2Version)
    requires
        wf_anim(a),
    ensures
        wf_anim(spec_anim_convert(a, target)),
{
}

/// Format-preserving conversion is the identity.
///
/// Where the target version's required format equals the file's own, the
/// converted value equals the file, per-section keyframe data included.
pub proof fn lemma_anim_convert_preserves_format(a: AnimFileView, target: M2Version)
    requires
        a.format == spec_required_format(target),
    ensures
        spec_anim_convert(a, target) == a,
{
}

/// Conversion never touches the sections: every keyframe of every track of
/// every bone survives any conversion unchanged.
pub proof fn lemma_anim_convert_keeps_sections(a: AnimFileView, target: M2Version)
    ensures
        spec_anim_convert(a, target).sections == a.sections,
{
}

/// Round-trip transcode: taking a legacy file to a modern-format version
/// and back preserves the keyframe counts and values exactly; only the
/// derived metadata is rebuilt.
pub proof fn lemma_anim_transcode_roundtrip(a: AnimFileView, up: M2Version, down: M2Version)
    requires
        a.format == AnimFormat::Legacy,
        spec_required_format(up) == AnimFormat::Modern,
        spec_required_format(down) == AnimFormat::Legacy,
    ensures
        spec_anim_convert(spec_anim_convert(a, up), down).sections == a.sections,
        spec_anim_convert(spec_anim_convert(a, up), down).format == AnimFormat::Legacy,
{
}


/// Saturating addition associates.
pub proof fn lemma_sat_add_assoc(a: u64, b: u64, c: u64)
    ensures
        sat_add(sat_add(a, b), c) == sat_add(a, sat_add(b, c)),
{
}

// ---------------------------------------------------------------------------
// Deep copies (the record types hold vectors).
// ---------------------------------------------------------------------------

fn clone_track(t: &AnimTrack) -> (r: AnimTrack)
    ensures
        r@ == t@,
{
    AnimTrack {
        interpolation: t.interpolation,
        keyframes: vstd::slice::slice_to_vec(t.keyframes.as_slice()),
    }
}

fn clone_bone(b: &BoneAnimation) -> (r: BoneAnimation)
    ensures
        r@ == b@,
{
    BoneAnimation {
        translation: clone_track(&b.translation),
        rotation: clone_track(&b.rotation),
        scaling: clone_track(&b.scaling),
    }
}

fn clone_section(s: &AnimSection) -> (r: AnimSection)
    ensures
        r@ == s@,
{
    let mut bones: Vec<BoneAnimation> = Vec::new();
    let mut i: usize = 0;
    while i < s.bone_animations.len()
        invariant
            i <= s.bone_animations@.len(),
            bones@.len() == i,
            forall|j: int| 0 <= j < i ==> (#[trigger] bones@[j])@ == s.bone_animations@[j]@,
        decreases s.bone_animations@.len() - i,
    {
        bones.push(clone_bone(&s.bone_animations[i]));
        i = i + 1;
    }
    let r = AnimSection { header: s.header, bone_animations: bones };
    proof {
        assert(r@.bone_animations =~= s@.bone_animations);
        assert(r@ == s@);
    }
    r
}

fn clone_sections(ss: &Vec<AnimSection>) -> (r: Vec<AnimSection>)
    ensures
        r@.map_values(|s: AnimSection| s@) == ss@.map_values(|s: AnimSection| s@),
{
    let mut out: Vec<AnimSection> = Vec::new();
    let mut i: usize = 0;
    while i < ss.len()
        invariant
            i <= ss@.len(),
            out@.len() == i,
            forall|j: int| 0 <= j < i ==> (#[trigger] out@[j])@ == ss@[j]@,
        decreases ss@.len() - i,
    {
        out.push(clone_section(&ss[i]));
        i = i + 1;
    }
    proof {
        assert(out@.map_values(|s: AnimSection| s@) =~= ss@.map_values(|s: AnimSection| s@));
    }
    out
}

// ---------------------------------------------------------------------------
// Derived queries and conversion.
// ---------------------------------------------------------------------------

/// Keyframes of one bone, per track kind, saturating.
pub open spec fn spec_bones_tkf(bs: Seq<BoneAnimationView>, i: int) -> u64
    decreases bs.len() - i,
{
    if i < 0 || i >= bs.len() {
        0
    } else {
        sat_add(bs[i].translation.keyframes.len() as u64, spec_bones_tkf(bs, i + 1))
    }
}

pub open spec fn spec_bones_rkf(bs: Seq<BoneAnimationView>, i: int) -> u64
    decreases bs.len() - i,
{
    if i < 0 || i >= bs.len() {
        0
    } else {
        sat_add(bs[i].rotation.keyframes.len() as u64, spec_bones_rkf(bs, i + 1))
    }
}

pub open spec fn spec_bones_skf(bs: Seq<BoneAnimationView>, i: int) -> u64
    decreases bs.len() - i,
{
    if i < 0 || i >= bs.len() {
        0
    } else {
        sat_add(bs[i].scaling.keyframes.len() as u64, spec_bones_skf(bs, i + 1))
    }
}

pub open spec fn spec_total_tkf(ss: Seq<AnimSectionView>, i: int) -> u64
    decreases ss.len() - i,
{
    if i < 0 || i >= ss.len() {
        0
    } else {
        sat_add(spec_bones_tkf(ss[i].bone_animations, 0), spec_total_tkf(ss, i + 1))
    }
}

pub open spec fn spec_total_rkf(ss: Seq<AnimSectionView>, i: int) -> u64
    decreases ss.len() - i,
{
    if i < 0 || i >= ss.len() {
        0
    } else {
        sat_add(spec_bones_rkf(ss[i].bone_animations, 0), spec_total_rkf(ss, i + 1))
    }
}

pub open spec fn spec_total_skf(ss: Seq<AnimSectionView>, i: int) -> u64
    decreases ss.len() - i,
{
    if i < 0 || i >= ss.len() {
        0
    } else {
        sat_add(spec_bones_skf(ss[i].bone_animations, 0), spec_total_skf(ss, i + 1))
    }
}

pub open spec fn spec_total_bones(ss: Seq<AnimSectionView>, i: int) -> u64
    decreases ss.len() - i,
{
    if i < 0 || i >= ss.len() {
        0
    } else {
        sat_add(ss[i].bone_animations.len() as u64, spec_total_bones(ss, i + 1))
    }
}

/// The memory-footprint report: keyframe counts per track kind and an
/// approximate byte cost under the fixed per-keyframe size model. Counts
/// saturate at the 64-bit limit.
#[derive(Clone, Copy, Debug, PartialEq, Eq, Structural)]
pub struct AnimUsage {
    pub sections: u64,
    pub bone_animations: u64,
    pub translation_keyframes: u64,
    pub rotation_keyframes: u64,
    pub scaling_keyframes: u64,
    pub approximate_bytes: u64,
}

impl AnimUsage {
    /// Keyframes across all three track kinds, saturating.
    pub fn total_keyframes(&self) -> (r: u64)
        ensures
            r == sat_add(
                self.translation_keyframes,
                sat_add(self.rotation_keyframes, self.scaling_keyframes),
            ),
    {
        sat_add_u64(
            self.translation_keyframes,
            sat_add_u64(self.rotation_keyframes, self.scaling_keyframes),
        )
    }
}

fn bones_counts(bones: &Vec<BoneAnimation>) -> (r: (u64, u64, u64))
    ensures
        ({
            let bv = bones@.map_values(|b: BoneAnimation| b@);
            r.0 == spec_bones_tkf(bv, 0) && r.1 == spec_bones_rkf(bv, 0) && r.2 == spec_bones_skf(
                bv,
                0,
            )
        }),
{
    let ghost bv = bones@.map_values(|b: BoneAnimation| b@);
    let mut t: u64 = 0;
    let mut rr: u64 = 0;
    let mut s: u64 = 0;
    let mut i: usize = 0;
    while i < bones.len()
        invariant
            bv == bones@.map_values(|b: BoneAnimation| b@),
            i <= bones@.len(),
            sat_add(t, spec_bones_tkf(bv, i as int)) == spec_bones_tkf(bv, 0),
            sat_add(rr, spec_bones_rkf(bv, i as int)) == spec_bones_rkf(bv, 0),
            sat_add(s, spec_bones_skf(bv, i as int)) == spec_bones_skf(bv, 0),
        decreases bones@.len() - i,
    {
        let b = &bones[i];
        proof {
            assert(bv[i as int] == b@);
            lemma_sat_add_assoc(
                t,
                b@.translation.keyframes.len() as u64,
                spec_bones_tkf(bv, i as int + 1),
            );
            lemma_sat_add_assoc(
                rr,
                b@.rotation.keyframes.len() as u64,
                spec_bones_rkf(bv, i as int + 1),
            );
            lemma_sat_add_assoc(
                s,
                b@.scaling.keyframes.len() as u64,
                spec_bones_skf(bv, i as int + 1),
            );
        }
        t = sat_add_u64(t, b.translation.keyframes.len() as u64);
        rr = sat_add_u64(rr, b.rotation.keyframes.len() as u64);
        s = sat_add_u64(s, b.scaling.keyframes.len() as u64);
        i = i + 1;
    }
    (t, rr, s)
}

impl AnimFile {
    /// How many animation sections the file holds.
    pub fn animation_count(&self) -> (r: usize)
        ensures
            r == self@.sections.len(),
    {
        self.sections.len()
    }

    /// Whether the file uses the legacy raw-block encoding.
    pub fn is_legacy_format(&self) -> (r: bool)
        ensures
            r == (self@.format == AnimFormat::Legacy),
    {
        match self.format {
            AnimFormat::Legacy => true,
            AnimFormat::Modern => false,
        }
    }


    /// The structure-validity heuristics of this file's sections: the
    /// legacy detector's signal, recomputed on demand. Sections survive
    /// every conversion unchanged, so a low-confidence legacy file stays
    /// detectable after transcoding to the modern layout.
    pub fn structure_hints(&self) -> (r: StructureHints)
        ensures
            r == (StructureHints {
                appears_valid: spec_appears_valid(self@.sections),
                estimated_blocks: clamp32(self@.sections.len() as u64),
                has_timestamps: spec_has_timestamps(self@.sections),
            }),
    {
        compute_hints(&self.sections)
    }

    /// Sums keyframe counts across every bone track of every section and
    /// prices them under the per-keyframe size model.
    pub fn memory_usage(&self) -> (r: AnimUsage)
        ensures
            r.sections == self@.sections.len() as u64,
            r.bone_animations == spec_total_bones(self@.sections, 0),
            r.translation_keyframes == spec_total_tkf(self@.sections, 0),
            r.rotation_keyframes == spec_total_rkf(self@.sections, 0),
            r.scaling_keyframes == spec_total_skf(self@.sections, 0),
            r.approximate_bytes == sat_add(
                sat_mul(TRANSLATION_KF_BYTES, spec_total_tkf(self@.sections, 0)),
                sat_add(
                    sat_mul(ROTATION_KF_BYTES, spec_total_rkf(self@.sections, 0)),
                    sat_mul(SCALING_KF_BYTES, spec_total_skf(self@.sections, 0)),
                ),
            ),
    {
        let ghost sv = self@.sections;
        let mut t: u64 = 0;
        let mut rr: u64 = 0;
        let mut s: u64 = 0;
        let mut bones: u64 = 0;
        let mut i: usize = 0;
        while i < self.sections.len()
            invariant
                sv == self@.sections,
                sv == self.sections@.map_values(|x: AnimSection| x@),
                i <= self.sections@.len(),
                sat_add(t, spec_total_tkf(sv, i as int)) == spec_total_tkf(sv, 0),
                sat_add(rr, spec_total_rkf(sv, i as int)) == spec_total_rkf(sv, 0),
                sat_add(s, spec_total_skf(sv, i as int)) == spec_total_skf(sv, 0),
                sat_add(bones, spec_total_bones(sv, i as int)) == spec_total_bones(sv, 0),
            decreases self.sections@.len() - i,
        {
            let sec = &self.sections[i];
            proof {
                assert(sv[i as int] == sec@);
                assert(sec@.bone_animations == sec.bone_animations@.map_values(
                    |b: BoneAnimation| b@,
                ));
            }
            let (dt, dr, ds) = bones_counts(&sec.bone_animations);
            proof {
                lemma_sat_add_assoc(t, dt, spec_total_tkf(sv, i as int + 1));
                lemma_sat_add_assoc(rr, dr, spec_total_rkf(sv, i as int + 1));
                lemma_sat_add_assoc(s, ds, spec_total_skf(sv, i as int + 1));
                lemma_sat_add_assoc(
                    bones,
                    sec@.bone_animations.len() as u64,
                    spec_total_bones(sv, i as int + 1),
                );
            }
            t = sat_add_u64(t, dt);
            rr = sat_add_u64(rr, dr);
            s = sat_add_u64(s, ds);
            bones = sat_add_u64(bones, sec.bone_animations.len() as u64);
            i = i + 1;
        }
        let approx = sat_add_u64(
            sat_mul_u64(TRANSLATION_KF_BYTES, t),
            sat_add_u64(sat_mul_u64(ROTATION_KF_BYTES, rr), sat_mul_u64(SCALING_KF_BYTES, s)),
        );
        AnimUsage {
            sections: self.sections.len() as u64,
            bone_animations: bones,
            translation_keyframes: t,
            rotation_keyframes: rr,
            scaling_keyframes: s,
            approximate_bytes: approx,
        }
    }
}

/// Words one track occupies.
fn track_words(t: &AnimTrack) -> (r: u64)
    ensures
        r == spec_track_words(t@),
{
    sat_add_u64(2, sat_mul_u64(2, t.keyframes.len() as u64))
}

/// Words one section occupies.
fn section_words(s: &AnimSection) -> (r: u64)
    ensures
        r == spec_section_words(s@),
{
    let ghost bv = s.bone_animations@.map_values(|b: BoneAnimation| b@);
    let mut acc: u64 = 0;
    let mut i: usize = 0;
    while i < s.bone_animations.len()
        invariant
            bv == s.bone_animations@.map_values(|b: BoneAnimation| b@),
            i <= s.bone_animations@.len(),
            sat_add(acc, spec_bones_words(bv, i as int)) == spec_bones_words(bv, 0),
        decreases s.bone_animations@.len() - i,
    {
        let b = &s.bone_animations[i];
        let bw = sat_add_u64(
            track_words(&b.translation),
            sat_add_u64(track_words(&b.rotation), track_words(&b.scaling)),
        );
        proof {
            assert(bv[i as int] == b@);
            lemma_sat_add_assoc(acc, spec_bone_words(b@), spec_bones_words(bv, i as int + 1));
        }
        acc = sat_add_u64(acc, bw);
        i = i + 1;
    }
    proof {
        assert(s@.bone_animations == bv);
    }
    sat_add_u64(4, acc)
}

/// Recomputes the legacy detector's structure hints from the sections.
/// Transcoding to the modern layout drops the legacy metadata, but the
/// sections survive every conversion unchanged, so the detector's
/// validity flag stays recoverable through this function.
pub fn compute_hints(sections: &Vec<AnimSection>) -> (r: StructureHints)
    ensures
        ({
            let sv = sections@.map_values(|s: AnimSection| s@);
            r == (StructureHints {
                appears_valid: spec_appears_valid(sv),
                estimated_blocks: clamp32(sv.len() as u64),
                has_timestamps: spec_has_timestamps(sv),
            })
        }),
{
    let ghost sv = sections@.map_values(|s: AnimSection| s@);
    let mut valid = true;
    let mut stamped = false;
    let mut i: usize = 0;
    while i < sections.len()
        invariant
            sv == sections@.map_values(|s: AnimSection| s@),
            i <= sections@.len(),
            valid == (forall|j: int|
                0 <= j < i ==> (#[trigger] sv[j]).header.start <= sv[j].header.end),
            stamped == (exists|j: int| 0 <= j < i && (#[trigger] sv[j]).header.end > 0),
        decreases sections@.len() - i,
    {
        let s = &sections[i];
        proof {
            assert(sv[i as int] == s@);
        }
        if s.header.start > s.header.end {
            valid = false;
        }
        if s.header.end > 0 {
            stamped = true;
        }
        i = i + 1;
    }
    proof {
        if valid {
            assert(spec_appears_valid(sv));
        }
        if !stamped {
            assert(!spec_has_timestamps(sv));
        }
    }
    StructureHints {
        appears_valid: valid,
        estimated_blocks: clamp32_u64(sections.len() as u64),
        has_timestamps: stamped,
    }
}

impl AnimFile {
    /// Re-encodes the file for the target version's required layout.
    /// Never fails: a matching format yields an equal value; otherwise the
    /// sections are carried across unchanged and only the metadata is
    /// rebuilt. A low-confidence legacy structure still transcodes; its
    /// validity flag travels in the legacy metadata.
    pub fn convert(&self, target_version: M2Version) -> (r: AnimFile)
        ensures
            r@ == spec_anim_convert(self@, target_version),
    {
        let req = required_format(target_version);
        let same = match (req, self.format) {
            (AnimFormat::Legacy, AnimFormat::Legacy) => true,
            (AnimFormat::Modern, AnimFormat::Modern) => true,
            _ => false,
        };
        if same {
            let metadata = match &self.metadata {
                AnimMetadata::Legacy { file_size, animation_count, structure_hints } => {
                    AnimMetadata::Legacy {
                        file_size: *file_size,
                        animation_count: *animation_count,
                        structure_hints: *structure_hints,
                    }
                },
                AnimMetadata::Modern { header, entries } => {
                    AnimMetadata::Modern {
                        header: *header,
                        entries: vstd::slice::slice_to_vec(entries.as_slice()),
                    }
                },
            };
            let r = AnimFile {
                format: self.format,
                metadata,
                sections: clone_sections(&self.sections),
            };
            proof {
                assert(r@ =~= self@);
            }
            r
        } else {
            match req {
                AnimFormat::Modern => {
                    let ghost sv = self@.sections;
                    let mut entries: Vec<AnimEntry> = Vec::new();
                    let mut off: u64 = sat_add_u64(
                        16,
                        sat_mul_u64(12, self.sections.len() as u64),
                    );
                    let mut i: usize = 0;
                    while i < self.sections.len()
                        invariant
                            sv == self.sections@.map_values(|x: AnimSection| x@),
                            i <= self.sections@.len(),
                            entries@.len() == i,
                            off == spec_entry_offset(sv, i as int),
                            forall|j: int|
                                0 <= j < i ==> #[trigger] entries@[j] == (AnimEntry {
                                    id: sv[j].header.id,
                                    offset: clamp32(spec_entry_offset(sv, j)),
                                    size: clamp32(sat_mul(4, spec_section_words(sv[j]))),
                                }),
                        decreases self.sections@.len() - i,
                    {
                        let s = &self.sections[i];
                        proof {
                            assert(sv[i as int] == s@);
                        }
                        let w = section_words(s);
                        entries.push(
                            AnimEntry {
                                id: s.header.id,
                                offset: clamp32_u64(off),
                                size: clamp32_u64(sat_mul_u64(4, w)),
                            },
                        );
                        off = sat_add_u64(off, sat_mul_u64(4, w));
                        i = i + 1;
                    }
                    let r = AnimFile {
                        format: AnimFormat::Modern,
                        metadata: AnimMetadata::Modern {
                            header: AnimHeader {
                                version: ANIM_VERSION,
                                id_count: clamp32_u64(self.sections.len() as u64),
                                anim_entry_offset: 16,
                            },
                            entries,
                        },
                        sections: clone_sections(&self.sections),
                    };
                    proof {
                        assert(r@.metadata->Modern_entries =~= spec_synth_entries(sv));
                        assert(r@ =~= spec_anim_convert(self@, target_version));
                    }
                    r
                },
                AnimFormat::Legacy => {
                    let ghost sv = self@.sections;
                    let mut words: u64 = 0;
                    let mut i: usize = 0;
                    while i < self.sections.len()
                        invariant
                            sv == self.sections@.map_values(|x: AnimSection| x@),
                            i <= self.sections@.len(),
                            sat_add(words, spec_sections_words(sv, i as int))
                                == spec_sections_words(sv, 0),
                        decreases self.sections@.len() - i,
                    {
                        let s = &self.sections[i];
                        proof {
                            assert(sv[i as int] == s@);
                            lemma_sat_add_assoc(
                                words,
                                spec_section_words(s@),
                                spec_sections_words(sv, i as int + 1),
                            );
                        }
                        let w = section_words(s);
                        words = sat_add_u64(words, w);
                        i = i + 1;
                    }
                    let hints = compute_hints(&self.sections);
                    let r = AnimFile {
                        format: AnimFormat::Legacy,
                        metadata: AnimMetadata::Legacy {
                            file_size: clamp32_u64(sat_mul_u64(4, words)),
                            animation_count: clamp32_u64(self.sections.len() as u64),
                            structure_hints: hints,
                        },
                        sections: clone_sections(&self.sections),
                    };
                    proof {
                        assert(r@ =~= spec_anim_convert(self@, target_version));
                    }
                    r
                },
            }
        }
    }
}


// ---------------------------------------------------------------------------
// Loading.
// ---------------------------------------------------------------------------

/// Reads one track starting at word `pos`.
fn parse_track(ws: &Vec<u32>, pos: usize) -> (r: Option<(AnimTrack, usize)>)
    requires
        pos <= ws@.len(),
    ensures
        match r {
            Some(p) => pos + 2 <= p.1 <= ws@.len() && dec_track(ws@.skip(pos as int)) == Some(
                (p.0@, ws@.skip(p.1 as int)),
            ),
            None => dec_track(ws@.skip(pos as int)) is None,
        },
{
    let len = ws.len();
    let ghost tail = ws@.skip(pos as int);
    if len - pos < 2 {
        return None;
    }
    let interp = ws[pos];
    let nw = ws[pos + 1];
    proof {
        assert(tail[0] == ws@[pos as int]);
        assert(tail[1] == ws@[pos as int + 1]);
    }
    let n = nw as usize;
    if ((len - pos - 2) as u64) < 2 * (n as u64) {
        proof {
            assert(tail.len() < 2 + 2 * (nw as int));
        }
        return None;
    }
    let mut kfs: Vec<AnimKeyframe> = Vec::new();
    let mut i: usize = 0;
    while i < n
        invariant
            ws@.len() <= usize::MAX,
            pos + 2 + 2 * n <= ws@.len(),
            i <= n,
            kfs@.len() == i,
            forall|j: int|
                0 <= j < i ==> #[trigger] kfs@[j] == (AnimKeyframe {
                    time: ws@[pos + 2 + 2 * j],
                    value: ws@[pos + 3 + 2 * j],
                }),
        decreases n - i,
    {
        kfs.push(AnimKeyframe { time: ws[pos + 2 + 2 * i], value: ws[pos + 3 + 2 * i] });
        i = i + 1;
    }
    let np = pos + 2 + 2 * n;
    proof {
        let d = dec_track(tail)->Some_0;
        assert forall|j: int| 0 <= j < n implies #[trigger] d.0.keyframes[j] == kfs@[j] by {
            assert(tail[2 + 2 * j] == ws@[pos + 2 + 2 * j]);
            assert(tail[3 + 2 * j] == ws@[pos + 3 + 2 * j]);
        }
        assert(d.0.keyframes =~= kfs@);
        assert(tail.skip(2 + 2 * (nw as int)) =~= ws@.skip(np as int));
    }
    Some((AnimTrack { interpolation: interp, keyframes: kfs }, np))
}

/// Reads one bone's three tracks starting at word `pos`.
fn parse_bone(ws: &Vec<u32>, pos: usize) -> (r: Option<(BoneAnimation, usize)>)
    requires
        pos <= ws@.len(),
    ensures
        match r {
            Some(p) => pos + 6 <= p.1 <= ws@.len() && dec_bone(ws@.skip(pos as int)) == Some(
                (p.0@, ws@.skip(p.1 as int)),
            ),
            None => dec_bone(ws@.skip(pos as int)) is None,
        },
{
    let (t1, p1) = match parse_track(ws, pos) {
        Some(x) => x,
        None => {
            return None;
        },
    };
    let (t2, p2) = match parse_track(ws, p1) {
        Some(x) => x,
        None => {
            return None;
        },
    };
    let (t3, p3) = match parse_track(ws, p2) {
        Some(x) => x,
        None => {
            return None;
        },
    };
    Some((BoneAnimation { translation: t1, rotation: t2, scaling: t3 }, p3))
}

/// Reads `n` bone records starting at word `pos`.
fn parse_bones(ws: &Vec<u32>, pos: usize, n: usize) -> (r: Option<(Vec<BoneAnimation>, usize)>)
    requires
        pos <= ws@.len(),
    ensures
        match r {
            Some(p) => pos <= p.1 <= ws@.len() && dec_bones(ws@.skip(pos as int), n as int)
                == Some((p.0@.map_values(|b: BoneAnimation| b@), ws@.skip(p.1 as int))),
            None => dec_bones(ws@.skip(pos as int), n as int) is None,
        },
{
    let mut out: Vec<BoneAnimation> = Vec::new();
    let mut cur = pos;
    let mut i: usize = 0;
    while i < n
        invariant
            pos <= cur <= ws@.len(),
            i <= n,
            out@.len() == i,
            dec_bones(ws@.skip(pos as int), n as int) == (match dec_bones(
                ws@.skip(cur as int),
                n as int - i as int,
            ) {
                Some(q) => Some((out@.map_values(|b: BoneAnimation| b@) + q.0, q.1)),
                None => None::<(Seq<BoneAnimationView>, Seq<u32>)>,
            }),
        decreases n - i,
    {
        let (b, np) = match parse_bone(ws, cur) {
            Some(x) => x,
            None => {
                return None;
            },
        };
        let ghost prev = out@;
        out.push(b);
        proof {
            assert(out@.map_values(|x: BoneAnimation| x@) =~= prev.map_values(
                |x: BoneAnimation| x@,
            ) + seq![b@]);
            if dec_bones(ws@.skip(np as int), n as int - i as int - 1) is Some {
                let q = dec_bones(ws@.skip(np as int), n as int - i as int - 1)->Some_0;
                assert(prev.map_values(|x: BoneAnimation| x@) + (seq![b@] + q.0)
                    =~= out@.map_values(|x: BoneAnimation| x@) + q.0);
            }
        }
        cur = np;
        i = i + 1;
    }
    proof {
        assert(out@.map_values(|x: BoneAnimation| x@) + Seq::<BoneAnimationView>::empty()
            =~= out@.map_values(|x: BoneAnimation| x@));
    }
    Some((out, cur))
}

/// Reads one section starting at word `pos`.
fn parse_section(ws: &Vec<u32>, pos: usize) -> (r: Option<(AnimSection, usize)>)
    requires
        pos <= ws@.len(),
    ensures
        match r {
            Some(p) => pos + 4 <= p.1 <= ws@.len() && dec_section(ws@.skip(pos as int)) == Some(
                (p.0@, ws@.skip(p.1 as int)),
            ),
            None => dec_section(ws@.skip(pos as int)) is None,
        },
{
    let len = ws.len();
    let ghost tail = ws@.skip(pos as int);
    if len - pos < 4 {
        return None;
    }
    let id = ws[pos];
    let start = ws[pos + 1];
    let end = ws[pos + 2];
    let bc = ws[pos + 3];
    proof {
        assert(tail[0] == ws@[pos as int]);
        assert(tail[1] == ws@[pos as int + 1]);
        assert(tail[2] == ws@[pos as int + 2]);
        assert(tail[3] == ws@[pos as int + 3]);
        assert(tail.skip(4) =~= ws@.skip(pos as int + 4));
    }
    let (bones, np) = match parse_bones(ws, pos + 4, bc as usize) {
        Some(x) => x,
        None => {
            return None;
        },
    };
    let s = AnimSection {
        header: AnimSectionHeader { id, start, end },
        bone_animations: bones,
    };
    Some((s, np))
}

/// Reads sections from word `pos` to the end of the words.
fn parse_sections(ws: &Vec<u32>, pos: usize) -> (r: Option<Vec<AnimSection>>)
    requires
        pos <= ws@.len(),
    ensures
        match r {
            Some(v) => dec_sections(ws@.skip(pos as int)) == Some(
                v@.map_values(|s: AnimSection| s@),
            ),
            None => dec_sections(ws@.skip(pos as int)) is None,
        },
{
    let mut out: Vec<AnimSection> = Vec::new();
    let mut cur = pos;
    while cur < ws.len()
        invariant
            pos <= cur <= ws@.len(),
            dec_sections(ws@.skip(pos as int)) == (match dec_sections(ws@.skip(cur as int)) {
                Some(ss) => Some(out@.map_values(|s: AnimSection| s@) + ss),
                None => None::<Seq<AnimSectionView>>,
            }),
        decreases ws@.len() - cur,
    {
        let (s, np) = match parse_section(ws, cur) {
            Some(x) => x,
            None => {
                return None;
            },
        };
        let ghost prev = out@;
        out.push(s);
        proof {
            assert(ws@.skip(cur as int).len() > 0);
            assert(ws@.skip(np as int).len() < ws@.skip(cur as int).len());
            assert(out@.map_values(|x: AnimSection| x@) =~= prev.map_values(|x: AnimSection| x@)
                + seq![s@]);
            if dec_sections(ws@.skip(np as int)) is Some {
                let q = dec_sections(ws@.skip(np as int))->Some_0;
                assert(prev.map_values(|x: AnimSection| x@) + (seq![s@] + q)
                    =~= out@.map_values(|x: AnimSection| x@) + q);
            }
        }
        cur = np;
    }
    proof {
        assert(ws@.skip(cur as int) =~= Seq::<u32>::empty());
        assert(out@.map_values(|x: AnimSection| x@) + Seq::<AnimSectionView>::empty()
            =~= out@.map_values(|x: AnimSection| x@));
    }
    Some(out)
}

impl AnimFile {
    /// Decodes an animation file: the modern header is tried first, then
    /// the legacy heuristic parse, whose confidence lands in the structure
    /// hints rather than in an error.
    pub fn load(bytes: &[u8]) -> (r: Result<AnimFile, ParseError>)
        ensures
            match r {
                Ok(a) => spec_parse_anim(bytes@) == Ok::<AnimFileView, ParseError>(a@),
                Err(e) => spec_parse_anim(bytes@) == Err::<AnimFileView, ParseError>(e),
            },
    {
        let blen = bytes.len();
        let ws = match decode_words(bytes) {
            Some(ws) => ws,
            None => {
                return Err(ParseError::Truncated);
            },
        };
        if ws.len() >= 4 && ws[0] == ANIM_MAGIC {
            let version = ws[1];
            let id_count_w = ws[2];
            let entry_off = ws[3];
            let n = id_count_w as usize;
            if ((ws.len() - 4) as u64) < 3 * (n as u64) {
                return Err(ParseError::Truncated);
            }
            let mut entries: Vec<AnimEntry> = Vec::new();
            let mut i: usize = 0;
            while i < n
                invariant
                    ws@.len() <= usize::MAX,
                    4 + 3 * n <= ws@.len(),
                    i <= n,
                    entries@.len() == i,
                    forall|j: int|
                        0 <= j < i ==> #[trigger] entries@[j] == (AnimEntry {
                            id: ws@[4 + 3 * j],
                            offset: ws@[5 + 3 * j],
                            size: ws@[6 + 3 * j],
                        }),
                decreases n - i,
            {
                entries.push(
                    AnimEntry { id: ws[4 + 3 * i], offset: ws[5 + 3 * i], size: ws[6 + 3 * i] },
                );
                i = i + 1;
            }
            let sections = match parse_sections(&ws, 4 + 3 * n) {
                Some(v) => v,
                None => {
                    return Err(ParseError::Truncated);
                },
            };
            if sections.len() as u64 != n as u64 {
                return Err(ParseError::Truncated);
            }
            let r = AnimFile {
                format: AnimFormat::Modern,
                metadata: AnimMetadata::Modern {
                    header: AnimHeader {
                        version,
                        id_count: id_count_w,
                        anim_entry_offset: entry_off,
                    },
                    entries,
                },
                sections,
            };
            proof {
                let sm = spec_parse_modern(ws@)->Ok_0;
                assert(r@.metadata->Modern_entries =~= sm.metadata->Modern_entries);
                assert(r@ =~= sm);
            }
            Ok(r)
        } else {
            let sections = match parse_sections(&ws, 0) {
                Some(v) => v,
                None => {
                    proof {
                        assert(ws@.skip(0) =~= ws@);
                    }
                    return Err(ParseError::Truncated);
                },
            };
            let hints = compute_hints(&sections);
            let r = AnimFile {
                format: AnimFormat::Legacy,
                metadata: AnimMetadata::Legacy {
                    file_size: clamp32_u64(blen as u64),
                    animation_count: clamp32_u64(sections.len() as u64),
                    structure_hints: hints,
                },
                sections,
            };
            proof {
                assert(ws@.skip(0) =~= ws@);
                let sl = spec_parse_legacy(ws@, bytes@.len() as int)->Ok_0;
                assert(r@ =~= sl);
            }
            Ok(r)
        }
    }
}


// ---------------------------------------------------------------------------
// Saving.
// ---------------------------------------------------------------------------

/// A file whose counts fit their count words and whose metadata matches
/// its format, with one table entry per section in the modern layout.
pub open spec fn wf_anim(a: AnimFileView) -> bool {
    &&& wf_sections(a.sections)
    &&& (a.format == AnimFormat::Legacy <==> a.metadata is Legacy)
    &&& (a.metadata is Modern ==> a.metadata->Modern_entries.len() == a.sections.len())
}

/// The saved bytes of a file, under its own encoding.
pub open spec fn spec_anim_bytes(a: AnimFileView) -> Seq<u8> {
    match a.metadata {
        AnimMetadataView::Legacy { .. } => enc_words(enc_sections(a.sections)),
        AnimMetadataView::Modern { header, entries } => enc_words(
            seq![ANIM_MAGIC, header.version, header.id_count, header.anim_entry_offset] + (
            enc_entries(entries) + enc_sections(a.sections)),
        ),
    }
}


/// Every track a successful read yields fits its count word.
pub proof fn lemma_dec_bones_wf(ws: Seq<u32>, n: int)
    requires
        dec_bones(ws, n) is Some,
    ensures
        dec_bones(ws, n)->Some_0.0.len() == (if n >= 0 {
            n
        } else {
            0
        }),
        forall|i: int|
            0 <= i < dec_bones(ws, n)->Some_0.0.len() ==> wf_bone(
                #[trigger] dec_bones(ws, n)->Some_0.0[i],
            ),
    decreases n,
{
    if n <= 0 {
    } else {
        let p = dec_bone(ws)->Some_0;
        lemma_dec_bones_wf(p.1, n - 1);
        let all = dec_bones(ws, n)->Some_0.0;
        let rest = dec_bones(p.1, n - 1)->Some_0.0;
        assert forall|i: int| 0 <= i < all.len() implies wf_bone(#[trigger] all[i]) by {
            if i >= 1 {
                assert(all[i] == rest[i - 1]);
            }
        }
    }
}

/// Every section a successful read yields is well-formed, so the file can
/// be saved again.
pub proof fn lemma_dec_sections_wf(ws: Seq<u32>)
    requires
        dec_sections(ws) is Some,
    ensures
        wf_sections(dec_sections(ws)->Some_0),
    decreases ws.len(),
{
    if ws.len() == 0 {
    } else {
        let p = dec_section(ws)->Some_0;
        lemma_dec_bones_wf(ws.skip(4), ws[3] as int);
        lemma_dec_sections_wf(p.1);
        let all = dec_sections(ws)->Some_0;
        let rest = dec_sections(p.1)->Some_0;
        assert forall|i: int| 0 <= i < all.len() implies wf_section(#[trigger] all[i]) by {
            if i >= 1 {
                assert(all[i] == rest[i - 1]);
            }
        }
    }
}

/// Every file a successful load yields is well-formed.
pub proof fn lemma_parse_anim_wf(b: Seq<u8>)
    requires
        spec_parse_anim(b) is Ok,
    ensures
        wf_anim(spec_parse_anim(b)->Ok_0),
{
    let ws = dec_words(b)->Some_0;
    if ws.len() >= 4 && ws[0] == ANIM_MAGIC {
        lemma_dec_sections_wf(ws.skip(4 + 3 * (ws[2] as int)));
    } else {
        lemma_dec_sections_wf(ws);
    }
}

pub proof fn lemma_enc_bones_snoc(bs: Seq<BoneAnimationView>, b: BoneAnimationView)
    ensures
        enc_bones(bs.push(b)) == enc_bones(bs) + enc_bone(b),
    decreases bs.len(),
{
    if bs.len() == 0 {
        assert(bs.push(b)[0] == b);
        assert(bs.push(b).drop_first() =~= Seq::<BoneAnimationView>::empty());
        assert(enc_bones(Seq::<BoneAnimationView>::empty()) =~= Seq::<u32>::empty());
        assert(enc_bones(bs.push(b)) =~= enc_bones(bs) + enc_bone(b));
    } else {
        assert(bs.push(b)[0] == bs[0]);
        assert(bs.push(b).drop_first() =~= bs.drop_first().push(b));
        lemma_enc_bones_snoc(bs.drop_first(), b);
        assert(enc_bone(bs[0]) + (enc_bones(bs.drop_first()) + enc_bone(b)) =~= (enc_bone(bs[0])
            + enc_bones(bs.drop_first())) + enc_bone(b));
    }
}

pub proof fn lemma_enc_sections_snoc(ss: Seq<AnimSectionView>, s: AnimSectionView)
    ensures
        enc_sections(ss.push(s)) == enc_sections(ss) + enc_section(s),
    decreases ss.len(),
{
    if ss.len() == 0 {
        assert(ss.push(s)[0] == s);
        assert(ss.push(s).drop_first() =~= Seq::<AnimSectionView>::empty());
        assert(enc_sections(Seq::<AnimSectionView>::empty()) =~= Seq::<u32>::empty());
        assert(enc_sections(ss.push(s)) =~= enc_sections(ss) + enc_section(s));
    } else {
        assert(ss.push(s)[0] == ss[0]);
        assert(ss.push(s).drop_first() =~= ss.drop_first().push(s));
        lemma_enc_sections_snoc(ss.drop_first(), s);
        assert(enc_section(ss[0]) + (enc_sections(ss.drop_first()) + enc_section(s)) =~= (
        enc_section(ss[0]) + enc_sections(ss.drop_first())) + enc_section(s));
    }
}

/// Appends one track's words.
fn push_track(out: &mut Vec<u32>, t: &AnimTrack)
    requires
        wf_track(t@),
    ensures
        final(out)@ == old(out)@ + enc_track(t@),
{
    let ghost base = out@;
    out.push(t.interpolation);
    out.push(t.keyframes.len() as u32);
    let mut i: usize = 0;
    while i < t.keyframes.len()
        invariant
            wf_track(t@),
            i <= t.keyframes@.len(),
            out@.len() == base.len() + 2 + 2 * i,
            out@.subrange(0, base.len() as int) =~= base,
            out@[base.len() as int] == t@.interpolation,
            out@[base.len() as int + 1] == t.keyframes@.len() as u32,
            forall|j: int|
                0 <= j < i ==> out@[base.len() + 2 + 2 * j] == (#[trigger] t.keyframes@[j]).time
                    && out@[base.len() + 3 + 2 * j] == t.keyframes@[j].value,
        decreases t.keyframes@.len() - i,
    {
        out.push(t.keyframes[i].time);
        out.push(t.keyframes[i].value);
        i = i + 1;
    }
    proof {
        let target = base + enc_track(t@);
        let bl = base.len() as int;
        assert(out@.len() == target.len());
        assert forall|x: int| 0 <= x < out@.len() implies out@[x] == target[x] by {
            if x < bl {
                assert(out@.subrange(0, bl)[x] == out@[x]);
            } else if x >= bl + 2 {
                let j = x - bl - 2;
                let q = j / 2;
                let r2 = j % 2;
                assert(0 <= r2 < 2 && j == 2 * q + r2) by (nonlinear_arith)
                    requires
                        j >= 0,
                        q == j / 2,
                        r2 == j % 2,
                ;
                assert(0 <= q < t.keyframes@.len());
                assert(out@[bl + 2 + 2 * q] == t.keyframes@[q].time && out@[bl + 3 + 2 * q]
                    == t.keyframes@[q].value);
            }
        }
        assert(out@ =~= target);
    }
}

/// Appends one bone's words: its three tracks in order.
fn push_bone(out: &mut Vec<u32>, b: &BoneAnimation)
    requires
        wf_bone(b@),
    ensures
        final(out)@ == old(out)@ + enc_bone(b@),
{
    push_track(out, &b.translation);
    push_track(out, &b.rotation);
    push_track(out, &b.scaling);
    proof {
        assert(out@ =~= old(out)@ + enc_bone(b@));
    }
}

/// Appends one section's words: header, then each bone.
fn push_section(out: &mut Vec<u32>, s: &AnimSection)
    requires
        wf_section(s@),
    ensures
        final(out)@ == old(out)@ + enc_section(s@),
{
    let ghost base = out@;
    let ghost bv = s.bone_animations@.map_values(|b: BoneAnimation| b@);
    out.push(s.header.id);
    out.push(s.header.start);
    out.push(s.header.end);
    out.push(s.bone_animations.len() as u32);
    let ghost hdr = out@;
    let mut i: usize = 0;
    while i < s.bone_animations.len()
        invariant
            wf_section(s@),
            bv == s.bone_animations@.map_values(|b: BoneAnimation| b@),
            i <= s.bone_animations@.len(),
            out@ == hdr + enc_bones(bv.take(i as int)),
        decreases s.bone_animations@.len() - i,
    {
        let b = &s.bone_animations[i];
        proof {
            assert(bv[i as int] == b@);
            assert(wf_bone(s@.bone_animations[i as int]));
            assert(enc_bones(Seq::<BoneAnimationView>::empty()) =~= Seq::<u32>::empty());
            assert(hdr + enc_bones(bv.take(0)) =~= hdr);
        }
        push_bone(out, b);
        proof {
            lemma_enc_bones_snoc(bv.take(i as int), b@);
            assert(bv.take(i as int).push(b@) =~= bv.take(i as int + 1));
            vstd::seq_lib::lemma_concat_associative(hdr, enc_bones(bv.take(i as int)), enc_bone(b@));
        }
        i = i + 1;
    }
    proof {
        assert(enc_bones(bv.take(0)) =~= Seq::<u32>::empty());
        assert(hdr + enc_bones(bv.take(0)) =~= hdr);
        assert(bv.take(s.bone_animations@.len() as int) =~= bv);
        assert(s@.bone_animations == bv);
        assert(hdr =~= base + seq![
            s@.header.id,
            s@.header.start,
            s@.header.end,
            s@.bone_animations.len() as u32,
        ]);
        vstd::seq_lib::lemma_concat_associative(
            base,
            seq![
                s@.header.id,
                s@.header.start,
                s@.header.end,
                s@.bone_animations.len() as u32,
            ],
            enc_bones(bv),
        );
        assert(out@ =~= base + enc_section(s@));
    }
}

impl AnimFile {
    /// Encodes the file under its own layout: the legacy sections back to
    /// back, or the modern header, entry table and sections.
    pub fn save(&self) -> (out: Vec<u8>)
        requires
            wf_anim(self@),
        ensures
            out@ == spec_anim_bytes(self@),
    {
        let ghost sv = self@.sections;
        let mut ws: Vec<u32> = Vec::new();
        match &self.metadata {
            AnimMetadata::Modern { header, entries } => {
                ws.push(ANIM_MAGIC);
                ws.push(header.version);
                ws.push(header.id_count);
                ws.push(header.anim_entry_offset);
                let ghost h4 = ws@;
                let mut i: usize = 0;
                while i < entries.len()
                    invariant
                        i <= entries@.len(),
                        h4.len() == 4,
                        ws@.len() == 4 + 3 * i,
                        ws@.subrange(0, 4) =~= h4,
                        forall|j: int|
                            0 <= j < i ==> ws@[4 + 3 * j] == (#[trigger] entries@[j]).id && ws@[5
                                + 3 * j] == entries@[j].offset && ws@[6 + 3 * j]
                                == entries@[j].size,
                    decreases entries@.len() - i,
                {
                    ws.push(entries[i].id);
                    ws.push(entries[i].offset);
                    ws.push(entries[i].size);
                    i = i + 1;
                }
                proof {
                    let target = h4 + enc_entries(entries@);
                    assert(ws@.len() == target.len());
                    assert forall|x: int| 0 <= x < ws@.len() implies ws@[x] == target[x] by {
                        if x < 4 {
                            assert(ws@.subrange(0, 4)[x] == ws@[x]);
                        } else {
                            let j = x - 4;
                            let q = j / 3;
                            let r3 = j % 3;
                            assert(0 <= r3 < 3 && j == 3 * q + r3) by (nonlinear_arith)
                                requires
                                    j >= 0,
                                    q == j / 3,
                                    r3 == j % 3,
                            ;
                            assert(0 <= q < entries@.len());
                            assert(ws@[4 + 3 * q] == entries@[q].id && ws@[5 + 3 * q]
                                == entries@[q].offset && ws@[6 + 3 * q] == entries@[q].size);
                        }
                    }
                    assert(ws@ =~= target);
                }
            },
            AnimMetadata::Legacy { .. } => {},
        }
        let ghost head = ws@;
        let mut i: usize = 0;
        while i < self.sections.len()
            invariant
                wf_anim(self@),
                sv == self@.sections,
                sv == self.sections@.map_values(|x: AnimSection| x@),
                i <= self.sections@.len(),
                ws@ == head + enc_sections(sv.take(i as int)),
            decreases self.sections@.len() - i,
        {
            let s = &self.sections[i];
            proof {
                assert(sv[i as int] == s@);
                assert(wf_section(sv[i as int]));
            }
            push_section(&mut ws, s);
            proof {
                lemma_enc_sections_snoc(sv.take(i as int), s@);
                assert(sv.take(i as int).push(s@) =~= sv.take(i as int + 1));
                vstd::seq_lib::lemma_concat_associative(
                    head,
                    enc_sections(sv.take(i as int)),
                    enc_section(s@),
                );
            }
            i = i + 1;
        }
        proof {
            assert(enc_sections(sv.take(0)) =~= Seq::<u32>::empty());
            assert(head + enc_sections(sv.take(0)) =~= head);
            assert(sv.take(self.sections@.len() as int) =~= sv);
            match self@.metadata {
                AnimMetadataView::Modern { header, entries } => {
                    assert(head =~= seq![
                        ANIM_MAGIC,
                        header.version,
                        header.id_count,
                        header.anim_entry_offset,
                    ] + enc_entries(entries));
                    vstd::seq_lib::lemma_concat_associative(
                        seq![
                            ANIM_MAGIC,
                            header.version,
                            header.id_count,
                            header.anim_entry_offset,
                        ],
                        enc_entries(entries),
                        enc_sections(sv),
                    );
                    assert(ws@ =~= seq![
                        ANIM_MAGIC,
                        header.version,
                        header.id_count,
                        header.anim_entry_offset,
                    ] + (enc_entries(entries) + enc_sections(sv)));
                },
                AnimMetadataView::Legacy { .. } => {
                    assert(head =~= Seq::<u32>::empty());
                    assert(ws@ =~= enc_sections(sv));
                },
            }
        }
        encode_words(&ws)
    }
}

} // verus!
