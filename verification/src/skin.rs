//! The skin (submesh/index) format. Two historical header layouts carry the
//! same three lists: a modern layout opens with a magic word, the legacy
//! layout starts directly with the counts. Both normalize into one
//! in-memory shape, so nothing downstream branches on the layout.
//!
//! Word layout of the body, shared by both headers: `[index_count,
//! triangle_count, submesh_count]`, then the vertex indices, then the
//! triangle indices, then per submesh `[id, index_start, index_count]`.
//! The modern layout prepends the magic word.

use crate::error::{ParseError, ValidationError};
use crate::version::M2Version;
use crate::words::{dec_words, decode_words, enc_words, encode_words, lemma_words_roundtrip};
use vstd::prelude::*;

verus! {

/// The magic word that opens a modern skin: the four magic bytes packed
/// little-endian.
pub const SKIN_MAGIC: u32 = 0x4E494B53;

/// Count cap that keeps every count word distinct from the magic word and
/// every layout within the 32-bit size fields.
pub const SKIN_MAX_COUNT: u32 = 0x00FFFFFF;

/// Which header layout a skin was read from or will be written in.
#[derive(Clone, Copy, Debug, PartialEq, Eq, Structural)]
pub enum SkinFormat {
    Legacy,
    Modern,
}

/// One submesh: an id and the half-open index range it owns.
#[derive(Clone, Copy, Debug, PartialEq, Eq, Structural)]
pub struct SkinSubmesh {
    pub id: u32,
    pub index_start: u32,
    pub index_count: u32,
}

/// Mathematical image of a skin.
#[verifier::ext_equal]
pub struct SkinView {
    pub format: SkinFormat,
    pub indices: Seq<u32>,
    pub triangles: Seq<u32>,
    pub submeshes: Seq<SkinSubmesh>,
}

/// A decoded skin: the source layout and the three normalized lists.
#[derive(Debug, PartialEq, Eq)]
pub struct Skin {
    pub format: SkinFormat,
    pub indices: Vec<u32>,
    pub triangles: Vec<u32>,
    pub submeshes: Vec<SkinSubmesh>,
}

impl View for Skin {
    type V = SkinView;

    open spec fn view(&self) -> SkinView {
        SkinView {
            format: self.format,
            indices: self.indices@,
            triangles: self.triangles@,
            submeshes: self.submeshes@,
        }
    }
}

/// A skin whose counts fit the count cap.
pub open spec fn wf_skin_lists(
    indices: Seq<u32>,
    triangles: Seq<u32>,
    submeshes: Seq<SkinSubmesh>,
) -> bool {
    indices.len() <= SKIN_MAX_COUNT && triangles.len() <= SKIN_MAX_COUNT && submeshes.len()
        <= SKIN_MAX_COUNT
}

pub open spec fn wf_skin(s: SkinView) -> bool {
    wf_skin_lists(s.indices, s.triangles, s.submeshes)
}

/// The weaker bound saving needs: every count fits its count word.
pub open spec fn wf_skin_counts(s: SkinView) -> bool {
    s.indices.len() <= u32::MAX && s.triangles.len() <= u32::MAX && s.submeshes.len() <= u32::MAX
}

/// Every skin a successful load yields is within the count cap, so every
/// loaded skin is covered by the round-trip and normalization laws and can
/// be saved again.
pub proof fn lemma_parse_skin_wf(b: Seq<u8>)
    requires
        spec_parse_skin(b) is Ok,
    ensures
        wf_skin(spec_parse_skin(b)->Ok_0),
        wf_skin_counts(spec_parse_skin(b)->Ok_0),
{
}


/// Which header layout a version's rules imply: the chunk-tagged modern
/// header from Wrath on, the fixed legacy header before.
pub open spec fn spec_skin_format_for(v: M2Version) -> SkinFormat {
    if v.spec_ordinal() >= 2 {
        SkinFormat::Modern
    } else {
        SkinFormat::Legacy
    }
}

pub fn skin_format_for(v: M2Version) -> (r: SkinFormat)
    ensures
        r == spec_skin_format_for(v),
{
    if v.ordinal() >= 2 {
        SkinFormat::Modern
    } else {
        SkinFormat::Legacy
    }
}

/// One finding per submesh whose index range reaches outside the
/// vertex-index list, in submesh order, starting at position `i`.
pub open spec fn spec_skin_oob_errs(submeshes: Seq<SkinSubmesh>, nidx: int, i: int) -> Seq<
    ValidationError,
>
    decreases submeshes.len() - i,
{
    if i < 0 || i >= submeshes.len() {
        Seq::empty()
    } else {
        (if submeshes[i].index_start as int + submeshes[i].index_count as int > nidx {
            seq![ValidationError::OutOfBoundsIndex]
        } else {
            Seq::empty()
        }) + spec_skin_oob_errs(submeshes, nidx, i + 1)
    }
}

/// Every referential finding of a skin: each submesh must own a range
/// that lies within the vertex-index list.
pub open spec fn spec_skin_validate(s: SkinView) -> Seq<ValidationError> {
    spec_skin_oob_errs(s.submeshes, s.indices.len() as int, 0)
}

impl Skin {
    /// Checks that every index range a submesh references is within the
    /// bounds of the index lists; collects every finding. `Ok` exactly
    /// when there is no finding.
    pub fn validate(&self) -> (r: Result<(), Vec<ValidationError>>)
        ensures
            match r {
                Ok(()) => spec_skin_validate(self@).len() == 0,
                Err(v) => v@ == spec_skin_validate(self@) && v@.len() > 0,
            },
    {
        let ghost sv = self@;
        let nidx = self.indices.len();
        let mut errs: Vec<ValidationError> = Vec::new();
        let mut i: usize = 0;
        while i < self.submeshes.len()
            invariant
                sv == self@,
                nidx == sv.indices.len(),
                i <= self.submeshes@.len(),
                errs@ + spec_skin_oob_errs(sv.submeshes, nidx as int, i as int)
                    == spec_skin_oob_errs(sv.submeshes, nidx as int, 0),
            decreases self.submeshes@.len() - i,
        {
            let ghost pre = errs@;
            let ghost head = spec_skin_oob_errs(sv.submeshes, nidx as int, i as int);
            let ghost tailp = spec_skin_oob_errs(sv.submeshes, nidx as int, i as int + 1);
            let sm = &self.submeshes[i];
            if sm.index_start as u64 + sm.index_count as u64 > nidx as u64 {
                errs.push(ValidationError::OutOfBoundsIndex);
                proof {
                    assert(head == seq![ValidationError::OutOfBoundsIndex] + tailp);
                    assert(errs@ =~= pre + seq![ValidationError::OutOfBoundsIndex]);
                    vstd::seq_lib::lemma_concat_associative(
                        pre,
                        seq![ValidationError::OutOfBoundsIndex],
                        tailp,
                    );
                }
            } else {
                proof {
                    assert(head =~= tailp);
                }
            }
            i = i + 1;
        }
        proof {
            assert(spec_skin_oob_errs(sv.submeshes, nidx as int, sv.submeshes.len() as int)
                =~= Seq::<ValidationError>::empty());
            assert(errs@ + Seq::<ValidationError>::empty() =~= errs@);
        }
        if errs.len() == 0 {
            Ok(())
        } else {
            Err(errs)
        }
    }
}

/// The body words shared by both layouts.
pub open spec fn enc_skin_body(
    indices: Seq<u32>,
    triangles: Seq<u32>,
    submeshes: Seq<SkinSubmesh>,
) -> Seq<u32> {
    seq![indices.len() as u32, triangles.len() as u32, submeshes.len() as u32] + indices
        + triangles + Seq::new(
        3 * submeshes.len(),
        |j: int| if j % 3 == 0 {
            submeshes[j / 3].id
        } else if j % 3 == 1 {
            submeshes[j / 3].index_start
        } else {
            submeshes[j / 3].index_count
        },
    )
}

/// Decodes body words into the three lists.
pub open spec fn dec_skin_body(ws: Seq<u32>) -> Option<(Seq<u32>, Seq<u32>, Seq<SkinSubmesh>)> {
    if ws.len() < 3 {
        None
    } else {
        let n1 = ws[0] as int;
        let n2 = ws[1] as int;
        let n3 = ws[2] as int;
        if ws.len() != 3 + n1 + n2 + 3 * n3 || n1 > SKIN_MAX_COUNT || n2 > SKIN_MAX_COUNT || n3
            > SKIN_MAX_COUNT {
            None
        } else {
            Some(
                (
                    ws.subrange(3, 3 + n1),
                    ws.subrange(3 + n1, 3 + n1 + n2),
                    Seq::new(
                        n3 as nat,
                        |i: int| SkinSubmesh {
                            id: ws[3 + n1 + n2 + 3 * i],
                            index_start: ws[4 + n1 + n2 + 3 * i],
                            index_count: ws[5 + n1 + n2 + 3 * i],
                        },
                    ),
                ),
            )
        }
    }
}

/// Decoding inverts encoding on every well-formed list triple.
pub proof fn lemma_skin_body_roundtrip(
    indices: Seq<u32>,
    triangles: Seq<u32>,
    submeshes: Seq<SkinSubmesh>,
)
    requires
        wf_skin_lists(indices, triangles, submeshes),
    ensures
        dec_skin_body(enc_skin_body(indices, triangles, submeshes)) == Some(
            (indices, triangles, submeshes),
        ),
{
    let ws = enc_skin_body(indices, triangles, submeshes);
    let n1 = indices.len() as int;
    let n2 = triangles.len() as int;
    let n3 = submeshes.len() as int;
    assert(ws[0] == indices.len() as u32);
    assert(ws[1] == triangles.len() as u32);
    assert(ws[2] == submeshes.len() as u32);
    assert(ws.subrange(3, 3 + n1) =~= indices);
    assert(ws.subrange(3 + n1, 3 + n1 + n2) =~= triangles);
    let d = dec_skin_body(ws)->Some_0;
    assert forall|i: int| 0 <= i < n3 implies #[trigger] d.2[i] == submeshes[i] by {
        assert(ws[3 + n1 + n2 + 3 * i] == submeshes[i].id);
        assert(ws[4 + n1 + n2 + 3 * i] == submeshes[i].index_start);
        assert(ws[5 + n1 + n2 + 3 * i] == submeshes[i].index_count);
    }
    assert(d.2 =~= submeshes);
    assert(d.0 == indices && d.1 == triangles && d.2 == submeshes);
}

/// The saved bytes of a skin, under its own layout.
pub open spec fn spec_skin_bytes(s: SkinView) -> Seq<u8> {
    match s.format {
        SkinFormat::Modern => enc_words(
            seq![SKIN_MAGIC] + enc_skin_body(s.indices, s.triangles, s.submeshes),
        ),
        SkinFormat::Legacy => enc_words(enc_skin_body(s.indices, s.triangles, s.submeshes)),
    }
}

/// Parses body words into a skin of the given layout.
pub open spec fn spec_parse_skin_body(ws: Seq<u32>, format: SkinFormat) -> Result<
    SkinView,
    ParseError,
> {
    match dec_skin_body(ws) {
        Some(t) => Ok(
            SkinView { format, indices: t.0, triangles: t.1, submeshes: t.2 },
        ),
        None => Err(ParseError::Truncated),
    }
}

/// The whole load under a caller-chosen layout: a modern read demands the
/// magic word, a legacy read takes the words as the bare body.
pub open spec fn spec_parse_skin_as(b: Seq<u8>, format: SkinFormat) -> Result<
    SkinView,
    ParseError,
> {
    match dec_words(b) {
        Some(ws) => match format {
            SkinFormat::Modern => if ws.len() >= 1 && ws[0] == SKIN_MAGIC {
                spec_parse_skin_body(ws.skip(1), SkinFormat::Modern)
            } else {
                Err(ParseError::InvalidMagic)
            },
            SkinFormat::Legacy => spec_parse_skin_body(ws, SkinFormat::Legacy),
        },
        None => Err(ParseError::Truncated),
    }
}

/// Every skin a forced-layout load yields is within the count cap too.
pub proof fn lemma_parse_skin_as_wf(b: Seq<u8>, format: SkinFormat)
    requires
        spec_parse_skin_as(b, format) is Ok,
    ensures
        wf_skin(spec_parse_skin_as(b, format)->Ok_0),
        wf_skin_counts(spec_parse_skin_as(b, format)->Ok_0),
{
}

/// The whole load with layout auto-detection: a leading magic word selects
/// the modern layout, anything else is read as legacy. A legacy body can
/// never begin with the magic word, since counts are capped below it.
pub open spec fn spec_parse_skin(b: Seq<u8>) -> Result<SkinView, ParseError> {
    match dec_words(b) {
        Some(ws) => if ws.len() >= 1 && ws[0] == SKIN_MAGIC {
            spec_parse_skin_body(ws.skip(1), SkinFormat::Modern)
        } else {
            spec_parse_skin_body(ws, SkinFormat::Legacy)
        },
        None => Err(ParseError::Truncated),
    }
}

/// Normalization: a legacy skin and a modern skin over the same three
/// lists load back equal but for the recorded source layout.
pub proof fn lemma_skin_normalization(
    indices: Seq<u32>,
    triangles: Seq<u32>,
    submeshes: Seq<SkinSubmesh>,
)
    requires
        wf_skin_lists(indices, triangles, submeshes),
    ensures
        ({
            let legacy = SkinView { format: SkinFormat::Legacy, indices, triangles, submeshes };
            let modern = SkinView { format: SkinFormat::Modern, indices, triangles, submeshes };
            &&& spec_parse_skin(spec_skin_bytes(legacy)) == Ok::<SkinView, ParseError>(legacy)
            &&& spec_parse_skin(spec_skin_bytes(modern)) == Ok::<SkinView, ParseError>(modern)
        }),
{
    let body = enc_skin_body(indices, triangles, submeshes);
    lemma_skin_body_roundtrip(indices, triangles, submeshes);
    lemma_words_roundtrip(body);
    lemma_words_roundtrip(seq![SKIN_MAGIC] + body);
    assert((seq![SKIN_MAGIC] + body)[0] == SKIN_MAGIC);
    assert((seq![SKIN_MAGIC] + body).skip(1) =~= body);
    assert(body[0] as int <= SKIN_MAX_COUNT);
}

impl Skin {
    /// Decodes a skin, selecting the layout from the leading word.
    pub fn load(bytes: &[u8]) -> (r: Result<Skin, ParseError>)
        ensures
            match r {
                Ok(s) => spec_parse_skin(bytes@) == Ok::<SkinView, ParseError>(s@),
                Err(e) => spec_parse_skin(bytes@) == Err::<SkinView, ParseError>(e),
            },
    {
        let ws = match decode_words(bytes) {
            Some(ws) => ws,
            None => {
                return Err(ParseError::Truncated);
            },
        };
        if ws.len() >= 1 && ws[0] == SKIN_MAGIC {
            let mut body: Vec<u32> = Vec::new();
            let mut i: usize = 1;
            while i < ws.len()
                invariant
                    1 <= i <= ws@.len(),
                    body@ =~= ws@.subrange(1, i as int),
                decreases ws@.len() - i,
            {
                body.push(ws[i]);
                i = i + 1;
            }
            proof {
                assert(body@ =~= ws@.skip(1));
            }
            Self::parse_body(&body, SkinFormat::Modern)
        } else {
            Self::parse_body(&ws, SkinFormat::Legacy)
        }
    }

    /// Decodes a skin under a caller-chosen layout, bypassing detection.
    /// A modern read demands the magic word; a legacy read takes the words
    /// as the bare body.
    pub fn load_with(bytes: &[u8], format: SkinFormat) -> (r: Result<Skin, ParseError>)
        ensures
            match r {
                Ok(s) => spec_parse_skin_as(bytes@, format) == Ok::<SkinView, ParseError>(s@),
                Err(e) => spec_parse_skin_as(bytes@, format) == Err::<SkinView, ParseError>(e),
            },
    {
        let ws = match decode_words(bytes) {
            Some(ws) => ws,
            None => {
                return Err(ParseError::Truncated);
            },
        };
        match format {
            SkinFormat::Modern => {
                if !(ws.len() >= 1 && ws[0] == SKIN_MAGIC) {
                    return Err(ParseError::InvalidMagic);
                }
                let mut body: Vec<u32> = Vec::new();
                let mut i: usize = 1;
                while i < ws.len()
                    invariant
                        1 <= i <= ws@.len(),
                        body@ =~= ws@.subrange(1, i as int),
                    decreases ws@.len() - i,
                {
                    body.push(ws[i]);
                    i = i + 1;
                }
                proof {
                    assert(body@ =~= ws@.skip(1));
                }
                Self::parse_body(&body, SkinFormat::Modern)
            },
            SkinFormat::Legacy => Self::parse_body(&ws, SkinFormat::Legacy),
        }
    }

    /// Unpacks body words into the three normalized lists.
    fn parse_body(ws: &Vec<u32>, format: SkinFormat) -> (r: Result<Skin, ParseError>)
        ensures
            match r {
                Ok(s) => spec_parse_skin_body(ws@, format) == Ok::<SkinView, ParseError>(s@),
                Err(e) => spec_parse_skin_body(ws@, format) == Err::<SkinView, ParseError>(e),
            },
    {
        if ws.len() < 3 {
            return Err(ParseError::Truncated);
        }
        let n1 = ws[0] as usize;
        let n2 = ws[1] as usize;
        let n3 = ws[2] as usize;
        if (ws.len() - 3) as u64 != n1 as u64 + n2 as u64 + 3 * (n3 as u64) {
            return Err(ParseError::Truncated);
        }
        if ws[0] > SKIN_MAX_COUNT || ws[1] > SKIN_MAX_COUNT || ws[2] > SKIN_MAX_COUNT {
            return Err(ParseError::Truncated);
        }
        let mut indices: Vec<u32> = Vec::new();
        let mut i: usize = 0;
        while i < n1
            invariant
                ws@.len() <= usize::MAX,
                ws@.len() == 3 + n1 + n2 + 3 * n3,
                n1 == ws@[0] as int,
                i <= n1,
                indices@ =~= ws@.subrange(3, 3 + i as int),
            decreases n1 - i,
        {
            indices.push(ws[3 + i]);
            proof {
                assert(indices@ =~= ws@.subrange(3, 3 + i as int + 1));
            }
            i = i + 1;
        }
        let mut triangles: Vec<u32> = Vec::new();
        let mut j: usize = 0;
        while j < n2
            invariant
                ws@.len() <= usize::MAX,
                ws@.len() == 3 + n1 + n2 + 3 * n3,
                n2 == ws@[1] as int,
                j <= n2,
                triangles@ =~= ws@.subrange(3 + n1 as int, 3 + n1 as int + j as int),
            decreases n2 - j,
        {
            triangles.push(ws[3 + n1 + j]);
            proof {
                assert(triangles@ =~= ws@.subrange(3 + n1 as int, 3 + n1 as int + j as int + 1));
            }
            j = j + 1;
        }
        let mut submeshes: Vec<SkinSubmesh> = Vec::new();
        let mut k: usize = 0;
        while k < n3
            invariant
                ws@.len() <= usize::MAX,
                ws@.len() == 3 + n1 + n2 + 3 * n3,
                k <= n3,
                submeshes@.len() == k,
                forall|t: int|
                    0 <= t < k ==> #[trigger] submeshes@[t] == (SkinSubmesh {
                        id: ws@[3 + n1 + n2 + 3 * t],
                        index_start: ws@[4 + n1 + n2 + 3 * t],
                        index_count: ws@[5 + n1 + n2 + 3 * t],
                    }),
            decreases n3 - k,
        {
            submeshes.push(
                SkinSubmesh {
                    id: ws[3 + n1 + n2 + 3 * k],
                    index_start: ws[4 + n1 + n2 + 3 * k],
                    index_count: ws[5 + n1 + n2 + 3 * k],
                },
            );
            k = k + 1;
        }
        let s = Skin { format, indices, triangles, submeshes };
        proof {
            let d = dec_skin_body(ws@)->Some_0;
            assert(s@.indices =~= d.0);
            assert(s@.triangles =~= d.1);
            assert(s@.submeshes =~= d.2);
            assert(s@ =~= spec_parse_skin_body(ws@, format)->Ok_0);
        }
        Ok(s)
    }

    /// Encodes the skin under its recorded layout.
    pub fn save(&self) -> (out: Vec<u8>)
        requires
            wf_skin_counts(self@),
        ensures
            out@ == spec_skin_bytes(self@),
    {
        let mut ws: Vec<u32> = Vec::new();
        match self.format {
            SkinFormat::Modern => {
                ws.push(SKIN_MAGIC);
            },
            SkinFormat::Legacy => {},
        }
        let ghost prefix = ws@;
        ws.push(self.indices.len() as u32);
        ws.push(self.triangles.len() as u32);
        ws.push(self.submeshes.len() as u32);
        let mut i: usize = 0;
        while i < self.indices.len()
            invariant
                wf_skin_counts(self@),
                i <= self.indices@.len(),
                ws@ =~= prefix + seq![
                    self.indices@.len() as u32,
                    self.triangles@.len() as u32,
                    self.submeshes@.len() as u32,
                ] + self.indices@.subrange(0, i as int),
            decreases self.indices@.len() - i,
        {
            ws.push(self.indices[i]);
            i = i + 1;
        }
        let mut j: usize = 0;
        while j < self.triangles.len()
            invariant
                wf_skin_counts(self@),
                j <= self.triangles@.len(),
                ws@ =~= prefix + seq![
                    self.indices@.len() as u32,
                    self.triangles@.len() as u32,
                    self.submeshes@.len() as u32,
                ] + self.indices@ + self.triangles@.subrange(0, j as int),
            decreases self.triangles@.len() - j,
        {
            ws.push(self.triangles[j]);
            j = j + 1;
        }
        let ghost mid = prefix + seq![
            self.indices@.len() as u32,
            self.triangles@.len() as u32,
            self.submeshes@.len() as u32,
        ] + self.indices@ + self.triangles@;
        let mut k: usize = 0;
        while k < self.submeshes.len()
            invariant
                wf_skin_counts(self@),
                k <= self.submeshes@.len(),
                ws@.len() == mid.len() + 3 * k,
                ws@.subrange(0, mid.len() as int) =~= mid,
                forall|t: int|
                    0 <= t < k ==> ws@[mid.len() + 3 * t] == (#[trigger] self.submeshes@[t]).id
                        && ws@[mid.len() + 3 * t + 1] == self.submeshes@[t].index_start
                        && ws@[mid.len() + 3 * t + 2] == self.submeshes@[t].index_count,
            decreases self.submeshes@.len() - k,
        {
            ws.push(self.submeshes[k].id);
            ws.push(self.submeshes[k].index_start);
            ws.push(self.submeshes[k].index_count);
            k = k + 1;
        }
        proof {
            let target = prefix + enc_skin_body(self.indices@, self.triangles@, self.submeshes@);
            let ml = mid.len() as int;
            assert(ws@.len() == target.len());
            assert forall|x: int| 0 <= x < ws@.len() implies ws@[x] == target[x] by {
                if x < ml {
                    assert(ws@.subrange(0, ml)[x] == ws@[x]);
                    assert(mid[x] == target[x]);
                } else {
                    let j = x - ml;
                    let t = j / 3;
                    let r = j % 3;
                    assert(0 <= r < 3 && j == 3 * t + r) by (nonlinear_arith)
                        requires
                            j >= 0,
                            t == j / 3,
                            r == j % 3,
                    ;
                    assert(0 <= t < self.submeshes@.len());
                    assert(ws@[ml + 3 * t] == self.submeshes@[t].id && ws@[ml + 3 * t + 1]
                        == self.submeshes@[t].index_start && ws@[ml + 3 * t + 2]
                        == self.submeshes@[t].index_count);
                }
            }
            assert(ws@ =~= prefix + enc_skin_body(
                self.indices@,
                self.triangles@,
                self.submeshes@,
            ));
            match self.format {
                SkinFormat::Modern => {
                    assert(ws@ =~= seq![SKIN_MAGIC] + enc_skin_body(
                        self.indices@,
                        self.triangles@,
                        self.submeshes@,
                    ));
                },
                SkinFormat::Legacy => {
                    assert(ws@ =~= enc_skin_body(
                        self.indices@,
                        self.triangles@,
                        self.submeshes@,
                    ));
                },
            }
        }
        encode_words(&ws)
    }
}

} // verus!
