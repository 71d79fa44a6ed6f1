//! Annotation fragments of one transcript, as GTF lists them, and their
//! merging into exons.
use vstd::prelude::*;
use crate::errors::{ParseGtfError, ReadWriteError};
use vstd::multiset::Multiset;
use crate::exon::Exon;
use crate::frame::{Frame, gtf_frame};
use crate::status::{CdsStat, Strand, strand_of};
use crate::text::{
    decimal_value, find_byte, first_index, parse_decimal, strip_back, joined, owned, piece, split_on, split_ranges, str_eq, strip_both,
    trim_end_range, trim_range,
};
use vstd::string::StringSliceAdditionalSpecFns;
use vstd::utf8::decode_utf8;
use crate::codon::Piece;
use crate::relations::subtract_spec;
use crate::transcript::{Transcript, TranscriptBuilder, cds_paired};

verus! {

broadcast use
    vstd::utf8::encode_utf8_decode_utf8,
    vstd::seq_lib::to_multiset_insert,
    vstd::seq_lib::to_multiset_remove,
    vstd::seq_lib::to_multiset_len,
    vstd::multiset::lemma_multiset_empty_len,
    vstd::multiset::group_multiset_axioms,
;

/// The feature kind of an annotation fragment.
#[derive(Clone, Copy, Debug, PartialEq, Eq, Structural)]
pub enum GtfFeature {
    Exon,
    CDS,
    StartCodon,
    StopCodon,
    UTR,
    UTR5,
    UTR3,
    Inter,
    InterCNS,
    IntronCNS,
    Gene,
    Transcript,
    Selenocysteine,
}

/// The token of each feature kind.
pub open spec fn feature_token(f: GtfFeature) -> Seq<char> {
    match f {
        GtfFeature::CDS => "CDS"@,
        GtfFeature::StartCodon => "start_codon"@,
        GtfFeature::StopCodon => "stop_codon"@,
        GtfFeature::UTR5 => "5UTR"@,
        GtfFeature::UTR3 => "3UTR"@,
        GtfFeature::UTR => "UTR"@,
        GtfFeature::Inter => "inter"@,
        GtfFeature::InterCNS => "inter_CNS"@,
        GtfFeature::IntronCNS => "intron_CNS"@,
        GtfFeature::Exon => "exon"@,
        GtfFeature::Gene => "gene"@,
        GtfFeature::Transcript => "transcript"@,
        GtfFeature::Selenocysteine => "Selenocysteine"@,
    }
}

/// The feature kind that a token names.
pub open spec fn feature_of(s: Seq<char>) -> Option<GtfFeature> {
    if s == "CDS"@ {
        Some(GtfFeature::CDS)
    } else if s == "start_codon"@ {
        Some(GtfFeature::StartCodon)
    } else if s == "stop_codon"@ {
        Some(GtfFeature::StopCodon)
    } else if s == "5UTR"@ {
        Some(GtfFeature::UTR5)
    } else if s == "3UTR"@ {
        Some(GtfFeature::UTR3)
    } else if s == "UTR"@ {
        Some(GtfFeature::UTR)
    } else if s == "inter"@ {
        Some(GtfFeature::Inter)
    } else if s == "inter_CNS"@ {
        Some(GtfFeature::InterCNS)
    } else if s == "intron_CNS"@ {
        Some(GtfFeature::IntronCNS)
    } else if s == "exon"@ {
        Some(GtfFeature::Exon)
    } else if s == "gene"@ {
        Some(GtfFeature::Gene)
    } else if s == "transcript"@ {
        Some(GtfFeature::Transcript)
    } else if s == "Selenocysteine"@ {
        Some(GtfFeature::Selenocysteine)
    } else {
        None
    }
}

impl GtfFeature {
    /// Parses a feature token.
    pub fn from_str(s: &str) -> (r: Result<GtfFeature, ParseGtfError>)
        ensures
            match feature_of(s@) {
                Some(f) => r is Ok && r->Ok_0 == f,
                None => r is Err && r->Err_0.message@ == "invalid feature type "@ + s@,
            },
    {
        if str_eq(s, "CDS") {
            Ok(GtfFeature::CDS)
        } else if str_eq(s, "start_codon") {
            Ok(GtfFeature::StartCodon)
        } else if str_eq(s, "stop_codon") {
            Ok(GtfFeature::StopCodon)
        } else if str_eq(s, "5UTR") {
            Ok(GtfFeature::UTR5)
        } else if str_eq(s, "3UTR") {
            Ok(GtfFeature::UTR3)
        } else if str_eq(s, "UTR") {
            Ok(GtfFeature::UTR)
        } else if str_eq(s, "inter") {
            Ok(GtfFeature::Inter)
        } else if str_eq(s, "inter_CNS") {
            Ok(GtfFeature::InterCNS)
        } else if str_eq(s, "intron_CNS") {
            Ok(GtfFeature::IntronCNS)
        } else if str_eq(s, "exon") {
            Ok(GtfFeature::Exon)
        } else if str_eq(s, "gene") {
            Ok(GtfFeature::Gene)
        } else if str_eq(s, "transcript") {
            Ok(GtfFeature::Transcript)
        } else if str_eq(s, "Selenocysteine") {
            Ok(GtfFeature::Selenocysteine)
        } else {
            Err(ParseGtfError { message: joined("invalid feature type ", s) })
        }
    }

    /// The token of the feature kind.
    pub fn to_string(&self) -> (r: String)
        ensures
            r@ == feature_token(*self),
    {
        match self {
            GtfFeature::CDS => owned("CDS"),
            GtfFeature::StartCodon => owned("start_codon"),
            GtfFeature::StopCodon => owned("stop_codon"),
            GtfFeature::UTR5 => owned("5UTR"),
            GtfFeature::UTR3 => owned("3UTR"),
            GtfFeature::UTR => owned("UTR"),
            GtfFeature::Inter => owned("inter"),
            GtfFeature::InterCNS => owned("inter_CNS"),
            GtfFeature::IntronCNS => owned("intron_CNS"),
            GtfFeature::Exon => owned("exon"),
            GtfFeature::Gene => owned("gene"),
            GtfFeature::Transcript => owned("transcript"),
            GtfFeature::Selenocysteine => owned("Selenocysteine"),
        }
    }
}

/// One annotation fragment: a feature of one transcript at an interval.
#[derive(Debug)]
pub struct GtfRecord {
    chrom: String,
    source: String,
    feature: GtfFeature,
    start: u32,
    end: u32,
    strand: Strand,
    frame_offset: Frame,
    gene: String,
    transcript: String,
    exon_number: Option<usize>,
}

/// The fields of an exon: start, end, cds start, cds end and frame.
pub type ExonModel = (u32, u32, Option<u32>, Option<u32>, Frame);

pub open spec fn model(e: Exon) -> ExonModel {
    (e.spec_start(), e.spec_end(), e.spec_cds_start(), e.spec_cds_end(), e.spec_frame())
}

pub open spec fn models(s: Seq<Exon>) -> Seq<ExonModel> {
    s.map_values(|e: Exon| model(e))
}

pub open spec fn umin(a: u32, b: u32) -> u32 {
    if a <= b { a } else { b }
}

pub open spec fn umax(a: u32, b: u32) -> u32 {
    if a >= b { a } else { b }
}

/// A well-formed exon model (see [`crate::exon::valid_bounds`]).
pub open spec fn model_wf(m: ExonModel) -> bool {
    crate::exon::valid_bounds(m.0, m.1, m.2, m.3)
}

impl GtfRecord {
    pub closed spec fn spec_chrom(&self) -> Seq<char> {
        self.chrom@
    }

    pub closed spec fn spec_feature(&self) -> GtfFeature {
        self.feature
    }

    pub closed spec fn spec_start(&self) -> u32 {
        self.start
    }

    pub closed spec fn spec_end(&self) -> u32 {
        self.end
    }

    pub closed spec fn spec_strand(&self) -> Strand {
        self.strand
    }

    pub closed spec fn spec_frame(&self) -> Frame {
        self.frame_offset
    }

    pub closed spec fn spec_gene(&self) -> Seq<char> {
        self.gene@
    }

    pub closed spec fn spec_transcript(&self) -> Seq<char> {
        self.transcript@
    }

    /// The exon that this fragment alone makes: coding over its whole
    /// interval for CDS and codon fragments, without frame for UTRs.
    pub open spec fn spec_exon(&self) -> ExonModel {
        let s = self.spec_start();
        let e = self.spec_end();
        match self.spec_feature() {
            GtfFeature::CDS | GtfFeature::StartCodon | GtfFeature::StopCodon => (
                s,
                e,
                Some(s),
                Some(e),
                self.spec_frame(),
            ),
            GtfFeature::UTR | GtfFeature::UTR3 | GtfFeature::UTR5 => (
                s,
                e,
                None,
                None,
                Frame::Unspecified,
            ),
            _ => (s, e, None, None, self.spec_frame()),
        }
    }

    /// The coding bounds after merging this fragment into an exon with
    /// the coding bounds `cs`, `ce`.
    pub open spec fn spec_merged_cds(&self, cs: Option<u32>, ce: Option<u32>) -> (
        Option<u32>,
        Option<u32>,
    ) {
        let s = self.spec_start();
        let e = self.spec_end();
        let lo = umin(s, cs.unwrap_or(s));
        let hi = umax(e, ce.unwrap_or(e));
        match (self.spec_feature(), self.spec_strand()) {
            (GtfFeature::CDS, _) => (Some(lo), Some(hi)),
            (GtfFeature::StopCodon, Strand::Plus) => (Some(lo), Some(e)),
            (GtfFeature::StopCodon, Strand::Minus) => (Some(s), Some(hi)),
            (GtfFeature::StartCodon, Strand::Plus) => (Some(s), Some(hi)),
            (GtfFeature::StartCodon, Strand::Minus) => (Some(lo), Some(e)),
            _ => (cs, ce),
        }
    }

    /// The exon after merging this fragment into `m`: the interval widens
    /// to the union; a CDS fragment widens the coding part and sets the
    /// frame; a start or stop codon sets the coding bound on its side; a
    /// coding exon without a known frame takes the fragment's frame.
    pub open spec fn spec_merge(&self, m: ExonModel) -> ExonModel {
        let (cs, ce) = self.spec_merged_cds(m.2, m.3);
        let f1 = if self.spec_feature() == GtfFeature::CDS {
            self.spec_frame()
        } else {
            m.4
        };
        let f2 = if cs.is_some() && f1.offset().is_none() {
            self.spec_frame()
        } else {
            f1
        };
        (umin(m.0, self.spec_start()), umax(m.1, self.spec_end()), cs, ce, f2)
    }

    pub fn gene(&self) -> (r: &str)
        ensures
            r@ == self.spec_gene(),
    {
        self.gene.as_str()
    }

    pub fn transcript(&self) -> (r: &str)
        ensures
            r@ == self.spec_transcript(),
    {
        self.transcript.as_str()
    }

    pub fn chrom(&self) -> (r: &str)
        ensures
            r@ == self.spec_chrom(),
    {
        self.chrom.as_str()
    }

    pub fn strand(&self) -> (r: &Strand)
        ensures
            *r == self.spec_strand(),
    {
        &self.strand
    }

    pub fn feature(&self) -> (r: &GtfFeature)
        ensures
            *r == self.spec_feature(),
    {
        &self.feature
    }

    pub fn start(&self) -> (r: u32)
        ensures
            r == self.spec_start(),
    {
        self.start
    }

    pub fn end(&self) -> (r: u32)
        ensures
            r == self.spec_end(),
    {
        self.end
    }

    pub fn frame_offset(&self) -> (r: Frame)
        ensures
            r == self.spec_frame(),
    {
        self.frame_offset
    }

    /// The exon that this fragment alone makes.
    pub fn to_exon(self) -> (r: Exon)
        ensures
            model(r) == self.spec_exon(),
    {
        let mut exon = Exon::new(self.start, self.end, None, None, self.frame_offset);
        match self.feature {
            GtfFeature::CDS | GtfFeature::StopCodon | GtfFeature::StartCodon => {
                *exon.cds_start_mut() = Some(self.start);
                *exon.cds_end_mut() = Some(self.end);
            },
            GtfFeature::UTR | GtfFeature::UTR3 | GtfFeature::UTR5 => {
                *exon.frame_offset_mut() = Frame::Unspecified;
            },
            _ => {},
        }
        exon
    }

    /// Merges this fragment into `exon` (see [`GtfRecord::spec_merge`]).
    pub fn add_to_exon(self, exon: Exon) -> (r: Exon)
        ensures
            model(r) == self.spec_merge(model(exon)),
    {
        let mut exon = exon;
        let start = if exon.start() <= self.start { exon.start() } else { self.start };
        let end = if exon.end() >= self.end { exon.end() } else { self.end };
        *exon.start_mut() = start;
        *exon.end_mut() = end;
        let cs = match exon.cds_start() {
            Some(x) => *x,
            None => self.start,
        };
        let ce = match exon.cds_end() {
            Some(x) => *x,
            None => self.end,
        };
        let lo = if self.start <= cs { self.start } else { cs };
        let hi = if self.end >= ce { self.end } else { ce };
        match self.feature {
            GtfFeature::CDS => {
                *exon.cds_start_mut() = Some(lo);
                *exon.cds_end_mut() = Some(hi);
                exon.set_frame(self.frame_offset);
            },
            GtfFeature::StopCodon => match self.strand {
                Strand::Plus => {
                    *exon.cds_start_mut() = Some(lo);
                    *exon.cds_end_mut() = Some(self.end);
                },
                Strand::Minus => {
                    *exon.cds_start_mut() = Some(self.start);
                    *exon.cds_end_mut() = Some(hi);
                },
                Strand::Unknown => {},
            },
            GtfFeature::StartCodon => match self.strand {
                Strand::Plus => {
                    *exon.cds_start_mut() = Some(self.start);
                    *exon.cds_end_mut() = Some(hi);
                },
                Strand::Minus => {
                    *exon.cds_start_mut() = Some(lo);
                    *exon.cds_end_mut() = Some(self.end);
                },
                Strand::Unknown => {},
            },
            _ => {},
        }
        if exon.is_coding() && !exon.frame_offset().is_known() {
            exon.set_frame(self.frame_offset);
        }
        exon
    }
}

/// Collects the fields of a fragment; [`GtfRecordBuilder::build`] checks
/// that all required ones were given.
#[derive(Debug)]
pub struct GtfRecordBuilder {
    chrom: Option<String>,
    source: Option<String>,
    feature: Option<GtfFeature>,
    start: Option<u32>,
    end: Option<u32>,
    strand: Strand,
    frame_offset: Frame,
    gene: Option<String>,
    transcript: Option<String>,
    exon_number: Option<usize>,
}

impl GtfRecordBuilder {
    pub closed spec fn spec_fields(&self) -> (
        Option<Seq<char>>,
        Option<GtfFeature>,
        Option<u32>,
        Option<u32>,
        Strand,
        Frame,
        Option<Seq<char>>,
        Option<Seq<char>>,
    ) {
        (
            match self.chrom {
                Some(c) => Some(c@),
                None => None,
            },
            self.feature,
            self.start,
            self.end,
            self.strand,
            self.frame_offset,
            match self.gene {
                Some(c) => Some(c@),
                None => None,
            },
            match self.transcript {
                Some(c) => Some(c@),
                None => None,
            },
        )
    }

    pub closed spec fn spec_has_source(&self) -> bool {
        self.source is Some
    }

    /// A builder with nothing set, an unknown strand and no frame.
    pub fn new() -> (r: GtfRecordBuilder)
        ensures
            r.spec_fields() == (
                None::<Seq<char>>,
                None::<GtfFeature>,
                None::<u32>,
                None::<u32>,
                Strand::Unknown,
                Frame::Unspecified,
                None::<Seq<char>>,
                None::<Seq<char>>,
            ),
            !r.spec_has_source(),
    {
        GtfRecordBuilder {
            chrom: None,
            source: None,
            feature: None,
            start: None,
            end: None,
            strand: Strand::Unknown,
            frame_offset: Frame::Unspecified,
            gene: None,
            transcript: None,
            exon_number: None,
        }
    }

    pub fn chrom(self, chrom: &str) -> (r: GtfRecordBuilder)
        ensures
            r.spec_fields() == (Some(chrom@), self.spec_fields().1, self.spec_fields().2, self.spec_fields().3, self.spec_fields().4, self.spec_fields().5, self.spec_fields().6, self.spec_fields().7),
            r.spec_has_source() == self.spec_has_source(),
    {
        GtfRecordBuilder { chrom: Some(owned(chrom)), ..self }
    }

    pub fn source(self, source: &str) -> (r: GtfRecordBuilder)
        ensures
            r.spec_fields() == self.spec_fields(),
            r.spec_has_source(),
    {
        GtfRecordBuilder { source: Some(owned(source)), ..self }
    }

    pub fn feature(self, feature: GtfFeature) -> (r: GtfRecordBuilder)
        ensures
            r.spec_fields() == (self.spec_fields().0, Some(feature), self.spec_fields().2, self.spec_fields().3, self.spec_fields().4, self.spec_fields().5, self.spec_fields().6, self.spec_fields().7),
            r.spec_has_source() == self.spec_has_source(),
    {
        GtfRecordBuilder { feature: Some(feature), ..self }
    }

    pub fn start(self, start: u32) -> (r: GtfRecordBuilder)
        ensures
            r.spec_fields() == (self.spec_fields().0, self.spec_fields().1, Some(start), self.spec_fields().3, self.spec_fields().4, self.spec_fields().5, self.spec_fields().6, self.spec_fields().7),
            r.spec_has_source() == self.spec_has_source(),
    {
        GtfRecordBuilder { start: Some(start), ..self }
    }

    pub fn end(self, end: u32) -> (r: GtfRecordBuilder)
        ensures
            r.spec_fields() == (self.spec_fields().0, self.spec_fields().1, self.spec_fields().2, Some(end), self.spec_fields().4, self.spec_fields().5, self.spec_fields().6, self.spec_fields().7),
            r.spec_has_source() == self.spec_has_source(),
    {
        GtfRecordBuilder { end: Some(end), ..self }
    }

    pub fn strand(self, strand: Strand) -> (r: GtfRecordBuilder)
        ensures
            r.spec_fields() == (self.spec_fields().0, self.spec_fields().1, self.spec_fields().2, self.spec_fields().3, strand, self.spec_fields().5, self.spec_fields().6, self.spec_fields().7),
            r.spec_has_source() == self.spec_has_source(),
    {
        GtfRecordBuilder { strand, ..self }
    }

    pub fn frame_offset(self, frame_offset: Frame) -> (r: GtfRecordBuilder)
        ensures
            r.spec_fields() == (self.spec_fields().0, self.spec_fields().1, self.spec_fields().2, self.spec_fields().3, self.spec_fields().4, frame_offset, self.spec_fields().6, self.spec_fields().7),
            r.spec_has_source() == self.spec_has_source(),
    {
        GtfRecordBuilder { frame_offset, ..self }
    }

    pub fn gene(self, gene: &str) -> (r: GtfRecordBuilder)
        ensures
            r.spec_fields() == (self.spec_fields().0, self.spec_fields().1, self.spec_fields().2, self.spec_fields().3, self.spec_fields().4, self.spec_fields().5, Some(gene@), self.spec_fields().7),
            r.spec_has_source() == self.spec_has_source(),
    {
        GtfRecordBuilder { gene: Some(owned(gene)), ..self }
    }

    pub fn transcript(self, transcript: &str) -> (r: GtfRecordBuilder)
        ensures
            r.spec_fields() == (self.spec_fields().0, self.spec_fields().1, self.spec_fields().2, self.spec_fields().3, self.spec_fields().4, self.spec_fields().5, self.spec_fields().6, Some(transcript@)),
            r.spec_has_source() == self.spec_has_source(),
    {
        GtfRecordBuilder { transcript: Some(owned(transcript)), ..self }
    }

    pub fn exon_number(self, exon_number: usize) -> (r: GtfRecordBuilder)
        ensures
            r.spec_fields() == self.spec_fields(),
            r.spec_has_source() == self.spec_has_source(),
    {
        GtfRecordBuilder { exon_number: Some(exon_number), ..self }
    }

    /// The fragment, or the name of the first missing field.
    pub fn build(self) -> (r: Result<GtfRecord, String>)
        ensures
            ({
                let f = self.spec_fields();
                if f.0 is Some && self.spec_has_source() && f.1 is Some && f.2 is Some && f.3 is Some
                    && f.6 is Some && f.7 is Some {
                    r is Ok && {
                        let g = r->Ok_0;
                        &&& g.spec_chrom() == f.0.unwrap()
                        &&& g.spec_feature() == f.1.unwrap()
                        &&& g.spec_start() == f.2.unwrap()
                        &&& g.spec_end() == f.3.unwrap()
                        &&& g.spec_strand() == f.4
                        &&& g.spec_frame() == f.5
                        &&& g.spec_gene() == f.6.unwrap()
                        &&& g.spec_transcript() == f.7.unwrap()
                    }
                } else {
                    r is Err
                }
            }),
    {
        let chrom = match self.chrom {
            Some(x) => x,
            None => return Err(owned("Missing chrom")),
        };
        let source = match self.source {
            Some(x) => x,
            None => return Err(owned("Missing source")),
        };
        let feature = match self.feature {
            Some(x) => x,
            None => return Err(owned("Missing feature")),
        };
        let start = match self.start {
            Some(x) => x,
            None => return Err(owned("Missing start")),
        };
        let end = match self.end {
            Some(x) => x,
            None => return Err(owned("Missing end")),
        };
        let gene = match self.gene {
            Some(x) => x,
            None => return Err(owned("Missing gene")),
        };
        let transcript = match self.transcript {
            Some(x) => x,
            None => return Err(owned("Missing transcript")),
        };
        Ok(
            GtfRecord {
                chrom,
                source,
                feature,
                start,
                end,
                strand: self.strand,
                frame_offset: self.frame_offset,
                gene,
                transcript,
                exon_number: self.exon_number,
            },
        )
    }
}

/// The fragments are in ascending order of their start.
pub open spec fn sorted_by_start(s: Seq<GtfRecord>) -> bool {
    forall|a: int, b: int| 0 <= a < b < s.len() ==> (#[trigger] s[a]).spec_start() <= (#[trigger] s[b]).spec_start()
}

/// The exons made from the sorted fragments `s[i..]`, where `acc` is the
/// exon being grown: a fragment that overlaps `acc` or starts right after
/// it is merged into it; any other one closes `acc` and starts a new exon.
pub open spec fn merge_from(s: Seq<GtfRecord>, i: int, acc: ExonModel) -> Seq<ExonModel>
    decreases s.len() - i,
{
    if i < 0 || i >= s.len() {
        seq![acc]
    } else if s[i].spec_start() <= acc.1 + 1 {
        merge_from(s, i + 1, s[i].spec_merge(acc))
    } else {
        seq![acc] + merge_from(s, i + 1, s[i].spec_exon())
    }
}

/// The exons made from the sorted fragments `s`.
pub open spec fn merged(s: Seq<GtfRecord>) -> Seq<ExonModel> {
    if s.len() == 0 {
        seq![]
    } else {
        merge_from(s, 1, s[0].spec_exon())
    }
}

/// Each fragment starts at or before its end.
pub open spec fn records_ordered(s: Seq<GtfRecord>) -> bool {
    forall|k: int| 0 <= k < s.len() ==> (#[trigger] s[k]).spec_start() <= s[k].spec_end()
}

proof fn lemma_merge_wf(r: GtfRecord, m: ExonModel)
    requires
        r.spec_start() <= r.spec_end(),
        model_wf(m),
    ensures
        model_wf(r.spec_merge(m)),
        model_wf(r.spec_exon()),
{
}

proof fn lemma_merge_from_wf(s: Seq<GtfRecord>, i: int, acc: ExonModel)
    requires
        model_wf(acc),
        records_ordered(s),
        0 <= i,
    ensures
        forall|k: int|
            0 <= k < merge_from(s, i, acc).len() ==> model_wf(#[trigger] merge_from(s, i, acc)[k]),
    decreases s.len() - i,
{
    if i < s.len() {
        lemma_merge_wf(s[i], acc);
        if s[i].spec_start() <= acc.1 + 1 {
            lemma_merge_from_wf(s, i + 1, s[i].spec_merge(acc));
            assert(merge_from(s, i, acc) == merge_from(s, i + 1, s[i].spec_merge(acc)));
        } else {
            lemma_merge_from_wf(s, i + 1, s[i].spec_exon());
            let rest = merge_from(s, i + 1, s[i].spec_exon());
            let all = merge_from(s, i, acc);
            assert(all == seq![acc] + rest);
            assert forall|k: int| 0 <= k < all.len() implies model_wf(#[trigger] all[k]) by {
                if k > 0 {
                    assert(all[k] == rest[k - 1]);
                }
            }
        }
    } else {
        assert(merge_from(s, i, acc) == seq![acc]);
        assert(merge_from(s, i, acc)[0] == acc);
    }
}

/// Fragments that each start at or before their end merge into
/// well-formed exons: `start <= end`, and for a coding exon
/// `start <= cds_start <= cds_end <= end`.
pub proof fn lemma_merged_exons_valid(s: Seq<GtfRecord>)
    requires
        records_ordered(s),
    ensures
        forall|k: int| 0 <= k < merged(s).len() ==> model_wf(#[trigger] merged(s)[k]),
{
    if s.len() > 0 {
        lemma_merge_wf(s[0], (0, 0, None, None, Frame::Unspecified));
        lemma_merge_from_wf(s, 1, s[0].spec_exon());
    }
}

/// Some fragment is of kind `f`.
pub open spec fn has_feature(s: Seq<GtfRecord>, f: GtfFeature) -> bool {
    exists|k: int| 0 <= k < s.len() && (#[trigger] s[k]).spec_feature() == f
}

/// The completeness of the CDS end that `codon` marks: complete if such a
/// codon fragment exists, incomplete if only CDS fragments do, unknown
/// without any CDS.
pub open spec fn codon_stat(s: Seq<GtfRecord>, codon: GtfFeature) -> CdsStat {
    if has_feature(s, codon) {
        CdsStat::Complete
    } else if has_feature(s, GtfFeature::CDS) {
        CdsStat::Incomplete
    } else {
        CdsStat::Unknown
    }
}

/// The fragments of one transcript.
#[derive(Debug)]
pub struct GtfRecordsGroup {
    transcript: String,
    exons: Vec<GtfRecord>,
}

impl GtfRecordsGroup {
    pub closed spec fn spec_transcript(&self) -> Seq<char> {
        self.transcript@
    }

    pub closed spec fn spec_records(&self) -> Seq<GtfRecord> {
        self.exons@
    }

    /// An empty group for the transcript of the given name.
    pub fn new(transcript_id: &str) -> (r: Self)
        ensures
            r.spec_transcript() == transcript_id@,
            r.spec_records().len() == 0,
    {
        GtfRecordsGroup { transcript: owned(transcript_id), exons: Vec::new() }
    }

    pub fn add_exon(&mut self, exon: GtfRecord)
        ensures
            final(self).spec_records() == old(self).spec_records().push(exon),
            final(self).spec_transcript() == old(self).spec_transcript(),
    {
        self.exons.push(exon)
    }

    pub fn transcript(&self) -> (r: &str)
        ensures
            r@ == self.spec_transcript(),
    {
        self.transcript.as_str()
    }

    /// `GTFT name with n exons`, where `n` counts the fragments.
    pub fn to_string(&self) -> (r: String)
        ensures
            r@ == "GTFT "@ + self.spec_transcript() + " with "@ + crate::text::decimal(
                self.spec_records().len() as nat,
            ) + " exons"@,
    {
        let s = joined("GTFT ", self.transcript.as_str()).concat(" with ");
        crate::text::append_number(s, self.exons.len() as u64).concat(" exons")
    }

    /// The gene of the first fragment.
    pub fn gene(&self) -> (r: &str)
        requires
            self.spec_records().len() > 0,
        ensures
            r@ == self.spec_records()[0].spec_gene(),
    {
        self.exons[0].gene()
    }

    /// The chromosome of the first fragment.
    pub fn chrom(&self) -> (r: &str)
        requires
            self.spec_records().len() > 0,
        ensures
            r@ == self.spec_records()[0].spec_chrom(),
    {
        self.exons[0].chrom()
    }

    /// The strand of the first fragment.
    pub fn strand(&self) -> (r: &Strand)
        requires
            self.spec_records().len() > 0,
        ensures
            *r == self.spec_records()[0].spec_strand(),
    {
        self.exons[0].strand()
    }

    /// Takes the fragments out in ascending order of their start.
    fn take_sorted(&mut self) -> (r: Vec<GtfRecord>)
        ensures
            sorted_by_start(r@),
            r@.to_multiset() == old(self).spec_records().to_multiset(),
            final(self).spec_records().len() == 0,
            final(self).spec_transcript() == old(self).spec_transcript(),
    {
        let ghost orig = self.exons@;
        let mut desc: Vec<GtfRecord> = Vec::new();
        assert(desc@.to_multiset().len() == 0);
        assert(desc@.to_multiset() =~= Multiset::empty());
        assert(desc@.to_multiset().add(self.exons@.to_multiset()) =~= orig.to_multiset());
        while self.exons.len() > 0
            invariant
                forall|a: int, b: int|
                    0 <= a < b < desc@.len() ==> (#[trigger] desc@[a]).spec_start() >= (
                    #[trigger] desc@[b]).spec_start(),
                desc@.to_multiset().add(self.exons@.to_multiset()) == orig.to_multiset(),
                self.transcript@ == old(self).transcript@,
            decreases self.exons@.len(),
        {
            let ghost before = self.exons@;
            let r = self.exons.pop().unwrap();
            proof {
                assert(before =~= self.exons@.push(r));
                vstd::seq_lib::to_multiset_build(self.exons@, r);
            }
            let mut k: usize = 0;
            while k < desc.len() && desc[k].start() >= r.start()
                invariant
                    0 <= k <= desc@.len(),
                    forall|j: int| 0 <= j < k ==> (#[trigger] desc@[j]).spec_start() >= r.spec_start(),
                decreases desc@.len() - k,
            {
                k = k + 1;
            }
            let ghost old_desc = desc@;
            desc.insert(k, r);
            proof {
                assert(desc@ == old_desc.insert(k as int, r));
                assert forall|a: int, b: int| 0 <= a < b < desc@.len() implies (
                #[trigger] desc@[a]).spec_start() >= (#[trigger] desc@[b]).spec_start() by {
                    if a < k && b > k {
                        assert(desc@[a] == old_desc[a]);
                        assert(desc@[b] == old_desc[b - 1]);
                    }
                    if a == k as int && b > k {
                        assert(desc@[b] == old_desc[b - 1]);
                        assert(!(old_desc[k as int].spec_start() >= r.spec_start()));
                        if b - 1 > k {
                            assert(old_desc[k as int].spec_start() >= old_desc[b - 1].spec_start());
                        }
                    }
                    if b == k as int {
                        assert(desc@[a] == old_desc[a]);
                    }
                    if b < k {
                        assert(desc@[a] == old_desc[a]);
                        assert(desc@[b] == old_desc[b]);
                    }
                    if a > k {
                        assert(desc@[a] == old_desc[a - 1]);
                        assert(desc@[b] == old_desc[b - 1]);
                    }
                }
            }
        }
        let ghost d = desc@;
        let mut asc: Vec<GtfRecord> = Vec::new();
        while desc.len() > 0
            invariant
                asc@ + desc@.reverse() == d.reverse(),
                forall|a: int, b: int|
                    0 <= a < b < d.len() ==> (#[trigger] d[a]).spec_start() >= (#[trigger] d[b]).spec_start(),
                desc@ == d.subrange(0, desc@.len() as int),
                desc@.len() <= d.len(),
            decreases desc@.len(),
        {
            let ghost before = desc@;
            let r = desc.pop().unwrap();
            proof {
                assert(before =~= desc@.push(r));
                assert(before.reverse() =~= seq![r] + desc@.reverse());
                assert(desc@ =~= d.subrange(0, desc@.len() as int));
            }
            asc.push(r);
            assert(asc@ + desc@.reverse() =~= d.reverse());
        }
        proof {
            assert(asc@ =~= d.reverse());
            d.lemma_reverse_to_multiset();
            assert(self.exons@.to_multiset().len() == 0);
            assert(self.exons@.to_multiset() =~= Multiset::empty());
            assert(d.to_multiset() =~= orig.to_multiset());
        }
        asc
    }

    /// Merges the fragments into exons, left to right, and leaves the group
    /// without fragments. Fragments are taken in ascending order of their
    /// start; see [`merge_from`] for the rule.
    pub fn exons(&mut self) -> (r: Vec<Exon>)
        ensures
            exists|s: Seq<GtfRecord>|
                #[trigger] sorted_by_start(s) && s.to_multiset() == old(
                    self,
                ).spec_records().to_multiset() && models(r@) == merged(s),
            records_ordered(old(self).spec_records()) ==> forall|k: int|
                0 <= k < r@.len() ==> (#[trigger] r@[k]).wf(),
            final(self).spec_records().len() == 0,
            final(self).spec_transcript() == old(self).spec_transcript(),
    {
        let ghost orig = self.exons@;
        let sorted = self.take_sorted();
        let ghost s = sorted@;
        proof {
            if records_ordered(orig) {
                assert forall|k: int| 0 <= k < s.len() implies (#[trigger] s[k]).spec_start() <= s[k].spec_end() by {
                    vstd::seq_lib::to_multiset_contains(s, s[k]);
                    vstd::seq_lib::to_multiset_contains(orig, s[k]);
                    assert(s.contains(s[k]));
                    let j = choose|j: int| 0 <= j < orig.len() && orig[j] == s[k];
                }
                lemma_merged_exons_valid(s);
            }
        }
        let mut rest = sorted;
        let mut out: Vec<Exon> = Vec::new();
        if rest.len() == 0 {
            assert(models(out@) =~= merged(s));
            return out;
        }
        proof {
            assert forall|k: int| 0 <= k < merged(s).len() implies model_wf(#[trigger] merged(s)[k])
                || !records_ordered(orig) by {}
        }
        let first = rest.remove(0);
        let mut acc = first.to_exon();
        proof {
            assert(rest@ =~= s.subrange(1, s.len() as int));
        }
        while rest.len() > 0
            invariant
                1 <= s.len(),
                rest@.len() <= s.len() - 1,
                rest@ == s.subrange(s.len() - rest@.len(), s.len() as int),
                models(out@) + merge_from(s, s.len() - rest@.len(), model(acc)) == merged(s),
            decreases rest@.len(),
        {
            let ghost i = s.len() - rest@.len();
            let ghost before = rest@;
            let x = rest.remove(0);
            proof {
                assert(x == s[i]);
                assert(rest@ =~= s.subrange(i + 1, s.len() as int));
            }
            if (x.start() as u64) <= (acc.end() as u64) + 1 {
                acc = x.add_to_exon(acc);
            } else {
                proof {
                    assert(models(out@.push(acc)) =~= models(out@) + seq![model(acc)]);
                }
                out.push(acc);
                acc = x.to_exon();
            }
        }
        proof {
            assert(models(out@.push(acc)) =~= models(out@) + seq![model(acc)]);
        }
        out.push(acc);
        proof {
            assert forall|k: int| records_ordered(orig) && 0 <= k < out@.len() implies (#[trigger] out@[k]).wf() by {
                assert(models(out@)[k] == model(out@[k]));
            }
        }
        out
    }

    fn cds_stat(&self, start_stop: GtfFeature) -> (r: CdsStat)
        ensures
            r == codon_stat(self.spec_records(), start_stop),
    {
        let mut cds_present = false;
        let mut i: usize = 0;
        while i < self.exons.len()
            invariant
                0 <= i <= self.exons@.len(),
                forall|k: int| 0 <= k < i ==> (#[trigger] self.exons@[k]).spec_feature() != start_stop,
                cds_present == exists|k: int| 0 <= k < i && (#[trigger] self.exons@[k]).spec_feature() == GtfFeature::CDS,
            decreases self.exons@.len() - i,
        {
            let f = *self.exons[i].feature();
            if f == start_stop {
                return CdsStat::Complete;
            }
            if f == GtfFeature::CDS {
                cds_present = true;
            }
            i = i + 1;
        }
        if cds_present {
            CdsStat::Incomplete
        } else {
            CdsStat::Unknown
        }
    }

    /// The start codon's completeness.
    fn cds_start_stat(&self) -> (r: CdsStat)
        ensures
            r == codon_stat(self.spec_records(), GtfFeature::StartCodon),
    {
        self.cds_stat(GtfFeature::StartCodon)
    }

    /// The stop codon's completeness.
    fn cds_end_stat(&self) -> (r: CdsStat)
        ensures
            r == codon_stat(self.spec_records(), GtfFeature::StopCodon),
    {
        self.cds_stat(GtfFeature::StopCodon)
    }
}

/// `t` is the transcript of the fragments `recs` of transcript `name`:
/// gene, chromosome and strand of the first fragment, codon status from
/// the kinds of fragments, and exons merged from the fragments in
/// ascending order of their start.
pub open spec fn transcript_of_group(t: Transcript, name: Seq<char>, recs: Seq<GtfRecord>) -> bool {
    let first = recs[0];
    &&& t.spec_name() == name
    &&& t.spec_gene() == first.spec_gene()
    &&& t.spec_chrom() == first.spec_chrom()
    &&& t.spec_strand() == first.spec_strand()
    &&& t.spec_bin() == None::<u16>
    &&& t.spec_start_codon_stat() == codon_stat(recs, GtfFeature::StartCodon)
    &&& t.spec_stop_codon_stat() == codon_stat(recs, GtfFeature::StopCodon)
    &&& exists|s: Seq<GtfRecord>|
        #[trigger] sorted_by_start(s) && s.to_multiset() == recs.to_multiset() && models(
            t.spec_exons(),
        ) == merged(s)
}

/// A group makes a transcript: it has fragments, and its first fragment
/// has a known strand.
pub open spec fn group_ok(recs: Seq<GtfRecord>) -> bool {
    recs.len() > 0 && recs[0].spec_strand() != Strand::Unknown
}

/// The message of a group without fragments.
pub open spec fn no_exons_message(name: Seq<char>) -> Seq<char> {
    "No exons in GTFT "@ + name + " with 0 exons"@
}

impl Transcript {
    /// The transcript of a group of fragments: name of the group; gene,
    /// chromosome and strand of its first fragment; start and stop codon
    /// status from the kinds of fragments present; exons merged from the
    /// fragments. Fails on an empty group and on an unknown strand.
    pub fn try_from(group: GtfRecordsGroup) -> (r: Result<Transcript, ParseGtfError>)
        ensures
            group.spec_records().len() == 0 ==> r is Err && r->Err_0.message@ == no_exons_message(
                group.spec_transcript(),
            ),
            group.spec_records().len() > 0 && group.spec_records()[0].spec_strand()
                == Strand::Unknown ==> r is Err && r->Err_0.message@
                == "Unable to build the transcript: "@
                + "Cannot set CDS-Startcodon-Stat without defined strand"@,
            group.spec_records().len() > 0 && group.spec_records()[0].spec_strand()
                != Strand::Unknown ==> r is Ok && transcript_of_group(
                r->Ok_0,
                group.spec_transcript(),
                group.spec_records(),
            ),
    {
        let mut group = group;
        if group.exons.len() == 0 {
            let m = joined("No exons in GTFT ", group.transcript());
            return Err(ParseGtfError { message: m.concat(" with 0 exons") });
        }
        let builder = TranscriptBuilder::new().name(group.transcript()).gene(group.gene()).chrom(
            group.chrom(),
        ).strand(*group.strand());
        let builder = match builder.cds_start_codon_stat(group.cds_start_stat()) {
            Ok(b) => b,
            Err(e) => return Err(ParseGtfError::new(e.to_string().as_str())),
        };
        let builder = match builder.cds_stop_codon_stat(group.cds_end_stat()) {
            Ok(b) => b,
            Err(e) => return Err(ParseGtfError::new(e.to_string().as_str())),
        };
        assert(builder.spec_name() is Some && builder.spec_chrom() is Some && builder.spec_gene() is Some);
        match builder.build() {
            Ok(t) => {
                let mut t = t;
                assert(t.spec_exons().len() == 0);
                let mut exons = group.exons();
                let ghost ex = exons@;
                t.append_exons(&mut exons);
                assert(t.spec_exons() =~= ex);
                Ok(t)
            },
            Err(_) => Err(ParseGtfError::new("Unable to build Transcript")),
        }
    }
}

/// The key and value of one attribute: the text before the first space,
/// and the text after it without double quotes at either end.
pub open spec fn attribute_of(b: Seq<u8>) -> Option<(Seq<u8>, Seq<u8>)> {
    match first_index(b, 0x20) {
        None => None,
        Some(i) => Some((b.subrange(0, i), strip_both(b.subrange(i + 1, b.len() as int), false, 0x22))),
    }
}

/// The gene and transcript ids of the attributes `segs[k..]`, each
/// attribute ended by a `;`, with `gene` and `tx` found so far: the first
/// point at which both are non-empty; `None` if an attribute is malformed
/// or the attributes run out first.
pub open spec fn gtf_ids(segs: Seq<Seq<u8>>, k: int, gene: Seq<u8>, tx: Seq<u8>) -> Option<
    (Seq<u8>, Seq<u8>),
>
    decreases segs.len() - k,
{
    if k < 0 || k + 1 >= segs.len() {
        None
    } else {
        match attribute_of(strip_both(segs[k], true, 0)) {
            None => None,
            Some((key, v)) => {
                let g = if decode_utf8(key) == "gene_id"@ {
                    v
                } else {
                    gene
                };
                let t = if decode_utf8(key) != "gene_id"@ && decode_utf8(key) == "transcript_id"@ {
                    v
                } else {
                    tx
                };
                if g.len() > 0 && t.len() > 0 {
                    Some((g, t))
                } else {
                    gtf_ids(segs, k + 1, g, t)
                }
            },
        }
    }
}

/// Splits one attribute at its first space into key and value; the value
/// loses its surrounding double quotes.
pub fn parse_attribute(attr: &str) -> (r: Result<(&str, &str), ParseGtfError>)
    ensures
        match attribute_of(attr.spec_bytes()) {
            Some((k, v)) => r is Ok && r->Ok_0.0.spec_bytes() == k && r->Ok_0.1.spec_bytes() == v,
            None => r is Err && r->Err_0.message@ == "Unable to parse the attribute\n\n"@ + attr@
                + "\nPlease check your GTF input."@,
        },
{
    let b = attr.as_bytes();
    proof {
        assert(b@.subrange(0, b@.len() as int) =~= b@);
    }
    match find_byte(b, 0, b.len(), 0x20) {
        None => {
            let m = joined("Unable to parse the attribute\n\n", attr);
            Err(ParseGtfError { message: m.concat("\nPlease check your GTF input.") })
        },
        Some(i) => {
            let key = piece(attr, 0, i);
            let (va, ve) = trim_range(b, i + 1, b.len(), false, 0x22);
            let value = piece(attr, va, ve);
            proof {
                assert(first_index(b@, 0x20) == Some(i as int));
                assert(key.spec_bytes() == b@.subrange(0, i as int));
                assert(value.spec_bytes() == strip_both(b@.subrange(i + 1, b@.len() as int), false, 0x22));
            }
            Ok((key, value))
        },
    }
}

/// The gene id and transcript id of a GTF attribute column: attributes
/// end with `;`, and the search stops as soon as both ids are found.
pub fn parse_attributes(attrs: &str) -> (r: Result<(&str, &str), ParseGtfError>)
    ensures
        match gtf_ids(split_on(attrs.spec_bytes(), 0x3b), 0, seq![], seq![]) {
            Some((g, t)) => r is Ok && r->Ok_0.0.spec_bytes() == g && r->Ok_0.1.spec_bytes() == t,
            None => r is Err,
        },
{
    let b = attrs.as_bytes();
    let segs = split_ranges(b, 0x3b);
    let ghost sp = split_on(b@, 0x3b);
    let mut gene: &str = "";
    let mut tx: &str = "";
    proof {
        reveal_strlit("");
        assert(gene.spec_bytes() =~= Seq::<u8>::empty());
        assert(tx.spec_bytes() =~= Seq::<u8>::empty());
    }
    let mut k: usize = 0;
    proof {
        crate::text::lemma_split_on_nonempty(b@, 0x3b);
    }
    while k < segs.len() - 1
        invariant
            k < segs@.len(),
            segs@.len() == sp.len(),
            sp == split_on(attrs.spec_bytes(), 0x3b),
            b@ == attrs.spec_bytes(),
            forall|j: int|
                0 <= j < segs@.len() ==> {
                    &&& (#[trigger] segs@[j]).0 <= segs@[j].1 <= b@.len()
                    &&& b@.subrange(segs@[j].0 as int, segs@[j].1 as int) == sp[j]
                    &&& (segs@[j].0 == 0 || b@[segs@[j].0 - 1] == 0x3b)
                    &&& (segs@[j].1 == b@.len() || b@[segs@[j].1 as int] == 0x3b)
                },
            gtf_ids(sp, 0, seq![], seq![]) == gtf_ids(sp, k as int, gene.spec_bytes(), tx.spec_bytes()),
        decreases segs@.len() - k,
    {
        let (a, e) = segs[k];
        let (ta, te) = trim_range(b, a, e, true, 0);
        let seg = piece(attrs, ta, te);
        proof {
            assert(b@.subrange(a as int, e as int) == sp[k as int]);
            assert(seg.spec_bytes() == strip_both(sp[k as int], true, 0));
        }
        match parse_attribute(seg) {
            Err(err) => {
                let m = joined("Unable to parse the attribute column\n\n>>>", attrs);
                return Err(ParseGtfError::from_chain(err, m.concat("<<<\n\n").as_str()));
            },
            Ok((key, value)) => {
                let ghost g0 = gene.spec_bytes();
                let ghost t0 = tx.spec_bytes();
                proof {
                    assert(attribute_of(strip_both(sp[k as int], true, 0)) == Some((key.spec_bytes(), value.spec_bytes())));
                    assert(decode_utf8(key.spec_bytes()) == key@);
                }
                if str_eq(key, "gene_id") {
                    gene = value;
                } else if str_eq(key, "transcript_id") {
                    tx = value;
                }
                proof {
                    let g = if key@ == "gene_id"@ { value.spec_bytes() } else { g0 };
                    let t = if key@ != "gene_id"@ && key@ == "transcript_id"@ { value.spec_bytes() } else { t0 };
                    assert(gene.spec_bytes() == g);
                    assert(tx.spec_bytes() == t);
                    assert(gtf_ids(sp, k as int, g0, t0) == if g.len() > 0 && t.len() > 0 {
                        Some((g, t))
                    } else {
                        gtf_ids(sp, k + 1, g, t)
                    });
                }
                if gene.as_bytes().len() > 0 && tx.as_bytes().len() > 0 {
                    return Ok((gene, tx));
                }
            },
        }
        k = k + 1;
    }
    Err(ParseGtfError::new("Missing gene_id or transcript_id"))
}

/// Chromosome, source, feature, start, end, strand, frame, gene id and
/// transcript id of a GTF line.
pub type LineModel = (Seq<char>, Seq<char>, GtfFeature, u32, u32, Strand, Frame, Seq<char>, Seq<char>);

/// The fragment of a GTF line: nine or more tab-separated columns (the
/// score column is not kept); the attribute column loses trailing
/// whitespace when it is the last one.
pub open spec fn gtf_line(b: Seq<u8>) -> Option<LineModel> {
    let f = split_on(b, 0x09);
    if f.len() < 9 {
        None
    } else {
        let attrs = if f.len() > 9 {
            f[8]
        } else {
            strip_back(f[8], true, 0)
        };
        match (
            feature_of(decode_utf8(f[2])),
            decimal_value(f[3], u32::MAX as int),
            decimal_value(f[4], u32::MAX as int),
            strand_of(decode_utf8(f[6])),
            gtf_frame(decode_utf8(f[7])),
            gtf_ids(split_on(attrs, 0x3b), 0, seq![], seq![]),
        ) {
            (Some(feature), Some(start), Some(end), Some(strand), Some(frame), Some((g, t))) => Some(
                (
                    decode_utf8(f[0]),
                    decode_utf8(f[1]),
                    feature,
                    start as u32,
                    end as u32,
                    strand,
                    frame,
                    decode_utf8(g),
                    decode_utf8(t),
                ),
            ),
            _ => None,
        }
    }
}

impl GtfRecord {
    pub open spec fn line_model(&self) -> LineModel {
        (
            self.spec_chrom(),
            self.spec_source(),
            self.spec_feature(),
            self.spec_start(),
            self.spec_end(),
            self.spec_strand(),
            self.spec_frame(),
            self.spec_gene(),
            self.spec_transcript(),
        )
    }

    pub closed spec fn spec_source(&self) -> Seq<char> {
        self.source@
    }

    pub closed spec fn spec_exon_number(&self) -> Option<usize> {
        self.exon_number
    }

    /// Feature, start, end, frame and exon number.
    pub open spec fn rec_model(&self) -> RecModel {
        (self.spec_feature(), self.spec_start(), self.spec_end(), self.spec_frame(), self.spec_exon_number())
    }

    /// The attribute column: gene id, transcript id and gene name, and the
    /// exon number and exon id where the fragment has a number.
    pub open spec fn spec_attributes(&self) -> Seq<char> {
        let base = "gene_id \""@ + self.spec_gene() + "\"; transcript_id \""@ + self.spec_transcript()
            + "\"; gene_name \""@ + self.spec_gene() + "\";"@;
        match self.spec_exon_number() {
            Some(n) => base + " exon_number \""@ + crate::text::decimal(n as nat) + "\"; exon_id \""@
                + self.spec_transcript() + "."@ + crate::text::decimal(n as nat) + "\";"@,
            None => base,
        }
    }

    /// The GTF line of the fragment; the score column is always `.`.
    pub open spec fn spec_line(&self) -> Seq<char> {
        self.spec_chrom() + "\t"@ + self.spec_source() + "\t"@ + feature_token(self.spec_feature())
            + "\t"@ + crate::text::decimal(self.spec_start() as nat) + "\t"@ + crate::text::decimal(
            self.spec_end() as nat,
        ) + "\t.\t"@ + crate::status::strand_token(self.spec_strand()) + "\t"@
            + crate::frame::gtf_token(self.spec_frame()) + "\t"@ + self.spec_attributes()
    }

    fn attributes_to_string(&self) -> (r: String)
        ensures
            r@ == self.spec_attributes(),
    {
        let s = joined("gene_id \"", self.gene.as_str()).concat("\"; transcript_id \"").concat(
            self.transcript.as_str(),
        ).concat("\"; gene_name \"").concat(self.gene.as_str()).concat("\";");
        match self.exon_number {
            Some(n) => {
                let s = crate::text::append_number(s.concat(" exon_number \""), n as u64);
                let s = s.concat("\"; exon_id \"").concat(self.transcript.as_str()).concat(".");
                crate::text::append_number(s, n as u64).concat("\";")
            },
            None => s,
        }
    }

    /// The GTF line of the fragment (see [`GtfRecord::spec_line`]).
    pub fn to_string(&self) -> (r: String)
        ensures
            r@ == self.spec_line(),
    {
        let s = self.chrom.clone().concat("\t").concat(self.source.as_str()).concat("\t");
        let s = s.concat(self.feature.to_string().as_str()).concat("\t");
        let s = crate::text::append_number(s, self.start as u64).concat("\t");
        let s = crate::text::append_number(s, self.end as u64).concat("\t.\t");
        let s = s.concat(self.strand.to_string().as_str()).concat("\t");
        let s = s.concat(self.frame_offset.to_gtf().as_str()).concat("\t");
        s.concat(self.attributes_to_string().as_str())
    }

    /// Parses one GTF line.
    pub fn from_str(s: &str) -> (r: Result<GtfRecord, ParseGtfError>)
        ensures
            match gtf_line(s.spec_bytes()) {
                Some(m) => r is Ok && r->Ok_0.line_model() == m,
                None => r is Err,
            },
    {
        let b = s.as_bytes();
        let cols = split_ranges(b, 0x09);
        let ghost f = split_on(b@, 0x09);
        if cols.len() < 9 {
            let m = joined("too few columns in line: ", s);
            return Err(ParseGtfError { message: m });
        }
        proof {
            assert forall|j: int| 0 <= j < 9 implies piece_of(s, cols@[j]) == f[j] by {}
        }
        let chrom = piece(s, cols[0].0, cols[0].1);
        let source = piece(s, cols[1].0, cols[1].1);
        let feature = GtfFeature::from_str(piece(s, cols[2].0, cols[2].1))?;
        let start = match parse_decimal(b, cols[3].0, cols[3].1, u32::MAX as u64) {
            Some(v) => v as u32,
            None => return Err(ParseGtfError::new("Unable to parse an integer")),
        };
        let end = match parse_decimal(b, cols[4].0, cols[4].1, u32::MAX as u64) {
            Some(v) => v as u32,
            None => return Err(ParseGtfError::new("Unable to parse an integer")),
        };
        let strand = match Strand::from_str(piece(s, cols[6].0, cols[6].1)) {
            Ok(x) => x,
            Err(message) => return Err(ParseGtfError { message }),
        };
        let frame_offset = match Frame::from_str(piece(s, cols[7].0, cols[7].1)) {
            Ok(x) => x,
            Err(message) => return Err(ParseGtfError { message }),
        };
        let (a, e) = if cols.len() > 9 {
            cols[8]
        } else {
            (cols[8].0, trim_end_range(b, cols[8].0, cols[8].1))
        };
        let attrs = piece(s, a, e);
        let (gene, transcript) = parse_attributes(attrs)?;
        Ok(
            GtfRecord {
                chrom: owned(chrom),
                source: owned(source),
                feature,
                start,
                end,
                strand,
                frame_offset,
                gene: owned(gene),
                transcript: owned(transcript),
                exon_number: None,
            },
        )
    }
}

/// The bytes of `s` in the range `r`.
pub open spec fn piece_of(s: &str, r: (usize, usize)) -> Seq<u8> {
    s.spec_bytes().subrange(r.0 as int, r.1 as int)
}

/// The feature kinds that make up a transcript's exons.
pub open spec fn kept(f: GtfFeature) -> bool {
    match f {
        GtfFeature::Exon | GtfFeature::CDS | GtfFeature::UTR | GtfFeature::UTR3 | GtfFeature::UTR5
        | GtfFeature::StartCodon | GtfFeature::StopCodon => true,
        _ => false,
    }
}

/// The last group of the given name in `gs[..n]`.
pub open spec fn group_index(gs: Seq<(Seq<char>, Seq<GtfRecord>)>, name: Seq<char>, n: int) -> Option<int>
    decreases n,
{
    if n <= 0 || n > gs.len() {
        None
    } else if gs[n - 1].0 == name {
        Some(n - 1)
    } else {
        group_index(gs, name, n - 1)
    }
}

/// The groups of `rs[..n]` by transcript id, in order of first
/// appearance; each holds the fragments of the kept kinds, in order.
pub open spec fn grouped(rs: Seq<GtfRecord>, n: int) -> Seq<(Seq<char>, Seq<GtfRecord>)>
    decreases n,
{
    if n <= 0 || n > rs.len() {
        seq![]
    } else {
        let gs = grouped(rs, n - 1);
        let r = rs[n - 1];
        match group_index(gs, r.spec_transcript(), gs.len() as int) {
            Some(k) => if kept(r.spec_feature()) {
                gs.update(k, (gs[k].0, gs[k].1.push(r)))
            } else {
                gs
            },
            None => gs.push(
                (
                    r.spec_transcript(),
                    if kept(r.spec_feature()) {
                        seq![r]
                    } else {
                        seq![]
                    },
                ),
            ),
        }
    }
}

pub open spec fn group_views(gs: Seq<GtfRecordsGroup>) -> Seq<(Seq<char>, Seq<GtfRecord>)> {
    gs.map_values(|g: GtfRecordsGroup| (g.spec_transcript(), g.spec_records()))
}

fn is_kept(f: GtfFeature) -> (r: bool)
    ensures
        r == kept(f),
{
    match f {
        GtfFeature::Exon | GtfFeature::CDS | GtfFeature::UTR | GtfFeature::UTR3 | GtfFeature::UTR5
        | GtfFeature::StartCodon | GtfFeature::StopCodon => true,
        _ => false,
    }
}

/// Groups fragments by transcript id, in order of first appearance. Only
/// exon, CDS, UTR and codon fragments are kept, but any fragment opens the
/// group of its transcript.
pub fn group_records(records: Vec<GtfRecord>) -> (r: Vec<GtfRecordsGroup>)
    ensures
        group_views(r@) == grouped(records@, records@.len() as int),
{
    let ghost rs = records@;
    let mut stack: Vec<GtfRecord> = Vec::new();
    let mut records = records;
    while records.len() > 0
        invariant
            stack@ + records@.reverse() == rs.reverse(),
            records@.len() <= rs.len(),
            records@ == rs.subrange(0, records@.len() as int),
        decreases records@.len(),
    {
        let ghost before = records@;
        let r = records.pop().unwrap();
        proof {
            assert(before =~= records@.push(r));
            assert(before.reverse() =~= seq![r] + records@.reverse());
            assert(records@ =~= rs.subrange(0, records@.len() as int));
        }
        stack.push(r);
        assert(stack@ + records@.reverse() =~= rs.reverse());
    }
    assert(stack@ =~= rs.reverse());
    let mut groups: Vec<GtfRecordsGroup> = Vec::new();
    assert(group_views(groups@) =~= grouped(rs, 0));
    while stack.len() > 0
        invariant
            stack@.len() <= rs.len(),
            forall|k: int| 0 <= k < stack@.len() ==> stack@[k] == rs[rs.len() - 1 - k],
            group_views(groups@) == grouped(rs, rs.len() - stack@.len()),
        decreases stack@.len(),
    {
        let ghost n = rs.len() - stack@.len();
        let r = stack.pop().unwrap();
        assert(r == rs[n]);
        let ghost gs = group_views(groups@);
        let mut k = groups.len();
        let mut found = false;
        while k > 0 && !found
            invariant
                0 <= k <= groups@.len(),
                gs == group_views(groups@),
                !found ==> group_index(gs, r.spec_transcript(), gs.len() as int) == group_index(
                    gs,
                    r.spec_transcript(),
                    k as int,
                ),
                found ==> k >= 1 && group_index(gs, r.spec_transcript(), gs.len() as int) == Some(
                    k - 1,
                ),
            decreases k + (if found {
                0int
            } else {
                1int
            }),
        {
            if str_eq(groups[k - 1].transcript(), r.transcript()) {
                found = true;
            } else {
                k = k - 1;
            }
        }
        proof {
            assert(rs.subrange(0, n + 1).drop_last() =~= rs.subrange(0, n));
        }
        if found {
            let idx = k - 1;
            if is_kept(*r.feature()) {
                let ghost old_groups = groups@;
                let mut g = groups.remove(idx);
                g.add_exon(r);
                groups.insert(idx, g);
                proof {
                    assert(group_views(groups@) =~= gs.update(
                        idx as int,
                        (gs[idx as int].0, gs[idx as int].1.push(r)),
                    ));
                }
            }
        } else {
            let mut g = GtfRecordsGroup::new(r.transcript());
            if is_kept(*r.feature()) {
                g.add_exon(r);
                assert(g.spec_records() =~= seq![r]);
            } else {
                assert(g.spec_records() =~= Seq::<GtfRecord>::empty());
            }
            groups.push(g);
            proof {
                assert(group_views(groups@) =~= gs.push((g.spec_transcript(), g.spec_records())));
            }
        }
    }
    groups
}

/// The transcripts of a list of GTF fragments: one per transcript id, in
/// order of first appearance (see [`group_records`]). Fails if a group has
/// no exon fragments or its first fragment has no strand.
pub fn transcripts_from_records(records: Vec<GtfRecord>) -> (r: Result<Vec<Transcript>, ReadWriteError>)
    ensures
        ({
            let gs = grouped(records@, records@.len() as int);
            &&& (r is Ok <==> (forall|k: int| 0 <= k < gs.len() ==> group_ok(#[trigger] gs[k].1)))
            &&& (r is Ok ==> r->Ok_0@.len() == gs.len() && (forall|k: int|
                0 <= k < gs.len() ==> transcript_of_group(#[trigger] r->Ok_0@[k], gs[k].0, gs[k].1)))
        }),
{
    let ghost rs = records@;
    let groups = group_records(records);
    let ghost gs = group_views(groups@);
    let mut stack: Vec<GtfRecordsGroup> = Vec::new();
    let mut groups = groups;
    let ghost all = groups@;
    while groups.len() > 0
        invariant
            stack@ + groups@.reverse() == all.reverse(),
            rs == records@,
            groups@.len() <= all.len(),
            groups@ == all.subrange(0, groups@.len() as int),
        decreases groups@.len(),
    {
        let ghost before = groups@;
        let g = groups.pop().unwrap();
        proof {
            assert(before =~= groups@.push(g));
            assert(before.reverse() =~= seq![g] + groups@.reverse());
            assert(groups@ =~= all.subrange(0, groups@.len() as int));
        }
        stack.push(g);
        assert(stack@ + groups@.reverse() =~= all.reverse());
    }
    assert(stack@ =~= all.reverse());
    let mut out: Vec<Transcript> = Vec::new();
    while stack.len() > 0
        invariant
            stack@.len() <= all.len(),
            gs == group_views(all),
            gs == grouped(rs, rs.len() as int),
            rs == records@,
            forall|k: int| 0 <= k < stack@.len() ==> stack@[k] == all[all.len() - 1 - k],
            out@.len() == all.len() - stack@.len(),
            forall|k: int| 0 <= k < out@.len() ==> group_ok(#[trigger] gs[k].1),
            forall|k: int| 0 <= k < out@.len() ==> transcript_of_group(#[trigger] out@[k], gs[k].0, gs[k].1),
        decreases stack@.len(),
    {
        let ghost n = out@.len() as int;
        let g = stack.pop().unwrap();
        assert(g == all[n]);
        assert(gs[n] == (g.spec_transcript(), g.spec_records()));
        match Transcript::try_from(g) {
            Ok(t) => {
                out.push(t);
            },
            Err(e) => {
                assert(0 <= n < gs.len());
                assert(!group_ok(gs[n].1));
                assert(!(forall|k: int| 0 <= k < gs.len() ==> group_ok(#[trigger] gs[k].1)));

                let m = joined("Error parsing ", e.to_string().as_str());
                return Err(ReadWriteError { message: m });
            },
        }
    }
    Ok(out)
}

/// `r` is the exon fragment of `e`: kind exon, the interval of `e`, no
/// frame.
pub open spec fn exon_fragment(r: GtfRecord, e: ExonModel) -> bool {
    &&& r.spec_feature() == GtfFeature::Exon
    &&& r.spec_start() == e.0
    &&& r.spec_end() == e.1
    &&& r.spec_frame() == Frame::Unspecified
}

/// `r` is the CDS fragment of the coding exon `e`: kind CDS, the coding
/// interval and the frame of `e`.
pub open spec fn cds_fragment(r: GtfRecord, e: ExonModel) -> bool {
    &&& r.spec_feature() == GtfFeature::CDS
    &&& e.2 is Some && e.3 is Some
    &&& r.spec_start() == e.2.unwrap()
    &&& r.spec_end() == e.3.unwrap()
    &&& r.spec_frame() == e.4
}

/// `t` splits the exons `es` by feature kind: for each exon in order, its
/// exon fragment, followed by its CDS fragment if it is coding.
pub open spec fn split_fragments(es: Seq<ExonModel>, t: Seq<GtfRecord>) -> bool
    decreases es.len(),
{
    if es.len() == 0 {
        t.len() == 0
    } else {
        let e = es[0];
        let n: int = if e.2 is Some {
            2
        } else {
            1
        };
        &&& t.len() >= n
        &&& exon_fragment(t[0], e)
        &&& (e.2 is Some ==> cds_fragment(t[1], e))
        &&& split_fragments(es.drop_first(), t.subrange(n, t.len() as int))
    }
}

/// Well-formed exons, in order, with at least one base between neighbours.
pub open spec fn separated(es: Seq<ExonModel>) -> bool {
    &&& forall|k: int| 0 <= k < es.len() ==> model_wf(#[trigger] es[k])
    &&& forall|k: int| 0 <= k < es.len() - 1 ==> (#[trigger] es[k]).1 + 1 < es[k + 1].0
}

/// An exon with the frame of a non-coding exon cleared.
pub open spec fn normalized(e: ExonModel) -> ExonModel {
    if e.2 is Some {
        e
    } else {
        (e.0, e.1, None, None, Frame::Unspecified)
    }
}

proof fn lemma_split_merge(es: Seq<ExonModel>, t: Seq<GtfRecord>, i: int, acc: ExonModel)
    requires
        separated(es),
        0 <= i <= t.len(),
        split_fragments(es, t.subrange(i, t.len() as int)),
        es.len() > 0 ==> es[0].0 > acc.1 + 1,
    ensures
        merge_from(t, i, acc) == seq![acc] + es.map_values(|e: ExonModel| normalized(e)),
    decreases es.len(),
{
    let u = t.subrange(i, t.len() as int);
    if es.len() == 0 {
        assert(es.map_values(|e: ExonModel| normalized(e)) =~= Seq::<ExonModel>::empty());
        assert(merge_from(t, i, acc) == seq![acc]);
        assert(seq![acc] + Seq::<ExonModel>::empty() =~= seq![acc]);
    } else {
        let e = es[0];
        let rest = es.drop_first();
        assert(model_wf(e));
        assert(separated(rest)) by {
            assert forall|k: int| 0 <= k < rest.len() - 1 implies (#[trigger] rest[k]).1 + 1 < rest[k + 1].0 by {
                assert(rest[k] == es[k + 1]);
                assert(rest[k + 1] == es[k + 2]);
            }
            assert forall|k: int| 0 <= k < rest.len() implies model_wf(#[trigger] rest[k]) by {
                assert(rest[k] == es[k + 1]);
            }
        }
        if es.len() > 1 {
            assert(es[0].1 + 1 < es[1].0);
        }
        assert(t[i] == u[0]);
        let em = t[i].spec_exon();
        assert(em == (e.0, e.1, None::<u32>, None::<u32>, Frame::Unspecified));
        assert(merge_from(t, i, acc) == seq![acc] + merge_from(t, i + 1, em));
        if e.2 is Some {
            assert(t[i + 1] == u[1]);
            let merged_e = t[i + 1].spec_merge(em);
            assert(merged_e == e);
            assert(merge_from(t, i + 1, em) == merge_from(t, i + 2, e));
            assert(t.subrange(i + 2, t.len() as int) =~= u.subrange(2, u.len() as int));
            lemma_split_merge(rest, t, i + 2, e);
        } else {
            assert(t.subrange(i + 1, t.len() as int) =~= u.subrange(1, u.len() as int));
            lemma_split_merge(rest, t, i + 1, em);
        }
        assert(es.map_values(|x: ExonModel| normalized(x)) =~= seq![normalized(e)] + rest.map_values(
            |x: ExonModel| normalized(x),
        ));
    }
}

proof fn lemma_split_normalized(es: Seq<ExonModel>, t: Seq<GtfRecord>)
    requires
        split_fragments(es, t),
    ensures
        split_fragments(es.map_values(|e: ExonModel| normalized(e)), t),
    decreases es.len(),
{
    let ns = es.map_values(|e: ExonModel| normalized(e));
    if es.len() > 0 {
        let e = es[0];
        let n: int = if e.2 is Some { 2 } else { 1 };
        lemma_split_normalized(es.drop_first(), t.subrange(n, t.len() as int));
        assert(ns.drop_first() =~= es.drop_first().map_values(|e: ExonModel| normalized(e)));
        assert(ns[0] == normalized(e));
    }
}

/// Merging the fragments of exons split by feature kind and splitting the
/// merged exons again by feature kind gives back exactly those fragments:
/// the exon fragments' intervals and the CDS fragments' coding bounds and
/// frames.
pub proof fn lemma_merge_then_split(es: Seq<ExonModel>, t: Seq<GtfRecord>)
    requires
        separated(es),
        split_fragments(es, t),
    ensures
        split_fragments(merged(t), t),
{
    lemma_split_then_merge(es, t);
    lemma_split_normalized(es, t);
}

/// Splitting exons into fragments by feature kind (an exon fragment, and a
/// CDS fragment for a coding exon) and merging the fragments again gives
/// back every exon's interval and coding bounds, and a coding exon's frame.
pub proof fn lemma_split_then_merge(es: Seq<ExonModel>, t: Seq<GtfRecord>)
    requires
        separated(es),
        split_fragments(es, t),
    ensures
        merged(t) == es.map_values(|e: ExonModel| normalized(e)),
        merged(t).len() == es.len(),
        forall|k: int|
            0 <= k < es.len() ==> {
                &&& (#[trigger] merged(t)[k]).0 == es[k].0
                &&& merged(t)[k].1 == es[k].1
                &&& merged(t)[k].2 == es[k].2
                &&& merged(t)[k].3 == es[k].3
                &&& (es[k].2 is Some ==> merged(t)[k].4 == es[k].4)
            },
{
    if es.len() == 0 {
        assert(es.map_values(|e: ExonModel| normalized(e)) =~= Seq::<ExonModel>::empty());
    } else {
        let e = es[0];
        let rest = es.drop_first();
        assert(model_wf(e));
        assert(separated(rest)) by {
            assert forall|k: int| 0 <= k < rest.len() - 1 implies (#[trigger] rest[k]).1 + 1 < rest[k + 1].0 by {
                assert(rest[k] == es[k + 1]);
                assert(rest[k + 1] == es[k + 2]);
            }
            assert forall|k: int| 0 <= k < rest.len() implies model_wf(#[trigger] rest[k]) by {
                assert(rest[k] == es[k + 1]);
            }
        }
        if es.len() > 1 {
            assert(es[0].1 + 1 < es[1].0);
        }
        let em = t[0].spec_exon();
        assert(t.subrange(0, t.len() as int) =~= t);
        if e.2 is Some {
            let merged_e = t[1].spec_merge(em);
            assert(merged_e == e);
            assert(merge_from(t, 1, em) == merge_from(t, 2, e));
            lemma_split_merge(rest, t, 2, e);
        } else {
            lemma_split_merge(rest, t, 1, em);
        }
        assert(es.map_values(|x: ExonModel| normalized(x)) =~= seq![normalized(e)] + rest.map_values(
            |x: ExonModel| normalized(x),
        ));
    }
}

/// Feature, start, end, frame and exon number of a composed fragment.
pub type RecModel = (GtfFeature, u32, u32, Frame, Option<usize>);

/// The codon fragments of a codon, as records of the given kind.
pub open spec fn codon_records(c: Seq<Piece>, f: GtfFeature) -> Seq<RecModel> {
    c.map_values(|p: Piece| (f, p.0, p.1, p.2, None::<usize>))
}

/// The CDS record of a coding exon: without the stop codon where the stop
/// codon is complete and known.
pub open spec fn cds_record(t: Transcript, e: Exon, num: usize, stop: Seq<Piece>) -> Seq<RecModel> {
    let cs = e.spec_cds_start().unwrap();
    let ce = e.spec_cds_end().unwrap();
    if t.spec_stop_codon_stat() == CdsStat::Complete && stop.len() > 0 {
        let sub = subtract_spec(cs, ce, stop[0].0, stop.last().1);
        if sub.len() == 0 {
            seq![]
        } else {
            let piece = if t.spec_strand() == Strand::Minus {
                sub.last()
            } else {
                sub[0]
            };
            seq![(GtfFeature::CDS, piece.0, piece.1, e.spec_frame(), Some(num))]
        }
    } else {
        seq![(GtfFeature::CDS, cs, ce, e.spec_frame(), Some(num))]
    }
}

/// The UTR record of the part of an exon left of the CDS (`left`) or right
/// of it; 5' or 3' by the strand.
pub open spec fn utr_record(t: Transcript, e: Exon, num: usize, left: bool) -> RecModel {
    let f = match (left, t.spec_strand()) {
        (true, Strand::Plus) => GtfFeature::UTR5,
        (false, Strand::Plus) => GtfFeature::UTR3,
        (true, Strand::Minus) => GtfFeature::UTR3,
        (false, Strand::Minus) => GtfFeature::UTR5,
        _ => GtfFeature::UTR,
    };
    let start = match (left, e.spec_cds_end()) {
        (false, Some(x)) => if x < u32::MAX {
            (x + 1) as u32
        } else {
            x
        },
        _ => e.spec_start(),
    };
    let end = match (left, e.spec_cds_start()) {
        (true, Some(x)) => if x > 0 {
            (x - 1) as u32
        } else {
            x
        },
        _ => e.spec_end(),
    };
    (f, start, end, Frame::Unspecified, Some(num))
}

/// The records of exon `e`, numbered `num`: the exon, its CDS if coding,
/// and its UTR parts if the transcript is coding.
pub open spec fn exon_records(t: Transcript, e: Exon, num: usize, stop: Seq<Piece>) -> Seq<RecModel> {
    seq![(GtfFeature::Exon, e.spec_start(), e.spec_end(), Frame::Unspecified, Some(num))] + (if e.spec_is_coding() {
        cds_record(t, e, num, stop)
    } else {
        seq![]
    }) + (if t.spec_is_coding() && e.spec_start() < t.spec_cds_start().unwrap() {
        seq![utr_record(t, e, num, true)]
    } else {
        seq![]
    }) + (if t.spec_is_coding() && e.spec_end() > t.spec_cds_end().unwrap() {
        seq![utr_record(t, e, num, false)]
    } else {
        seq![]
    })
}

/// The records of the exons `exons[..n]`.
pub open spec fn exons_records(t: Transcript, exons: Seq<Exon>, n: int, stop: Seq<Piece>) -> Seq<RecModel>
    decreases n,
{
    if n <= 0 || n > exons.len() {
        seq![]
    } else {
        exons_records(t, exons, n - 1, stop) + exon_records(t, exons[n - 1], n as usize, stop)
    }
}

/// The GTF records of a transcript: the transcript itself, its complete
/// start and stop codons, then for each exon its records.
pub open spec fn composed(t: Transcript) -> Seq<RecModel> {
    let start = t.spec_start_codon();
    let stop = t.spec_stop_codon();
    seq![(GtfFeature::Transcript, t.spec_exons()[0].spec_start(), t.spec_exons().last().spec_end(), Frame::Unspecified, None::<usize>)]
        + (if start.len() > 0 && t.spec_start_codon_stat() == CdsStat::Complete {
        codon_records(start, GtfFeature::StartCodon)
    } else {
        seq![]
    }) + (if stop.len() > 0 && t.spec_stop_codon_stat() == CdsStat::Complete {
        codon_records(stop, GtfFeature::StopCodon)
    } else {
        seq![]
    }) + exons_records(t, t.spec_exons(), t.spec_exons().len() as int, stop)
}

/// The record of the transcript `t` with the given feature, interval,
/// frame and exon number.
fn make_record(
    t: &Transcript,
    source: &str,
    feature: GtfFeature,
    start: u32,
    end: u32,
    frame: Frame,
    exon_number: Option<usize>,
) -> (r: GtfRecord)
    ensures
        r.rec_model() == (feature, start, end, frame, exon_number),
        r.spec_chrom() == t.spec_chrom(),
        r.spec_source() == source@,
        r.spec_strand() == t.spec_strand(),
        r.spec_gene() == t.spec_gene(),
        r.spec_transcript() == t.spec_name(),
{
    GtfRecord {
        chrom: owned(t.chrom()),
        source: owned(source),
        feature,
        start,
        end,
        strand: t.strand(),
        frame_offset: frame,
        gene: owned(t.gene()),
        transcript: owned(t.name()),
        exon_number,
    }
}

/// The records of `t` share its chromosome, strand, gene and name, and
/// the source.
pub open spec fn records_of(rs: Seq<GtfRecord>, t: Transcript, source: Seq<char>) -> bool {
    forall|k: int|
        0 <= k < rs.len() ==> {
            &&& (#[trigger] rs[k]).spec_chrom() == t.spec_chrom()
            &&& rs[k].spec_source() == source
            &&& rs[k].spec_strand() == t.spec_strand()
            &&& rs[k].spec_gene() == t.spec_gene()
            &&& rs[k].spec_transcript() == t.spec_name()
        }
}

pub open spec fn rec_models(rs: Seq<GtfRecord>) -> Seq<RecModel> {
    rs.map_values(|r: GtfRecord| r.rec_model())
}

fn push_record(out: &mut Vec<GtfRecord>, r: GtfRecord, t: &Transcript, source: &str)
    requires
        records_of(old(out)@, *t, source@),
        r.spec_chrom() == t.spec_chrom(),
        r.spec_source() == source@,
        r.spec_strand() == t.spec_strand(),
        r.spec_gene() == t.spec_gene(),
        r.spec_transcript() == t.spec_name(),
    ensures
        final(out)@ == old(out)@.push(r),
        records_of(final(out)@, *t, source@),
        rec_models(final(out)@) == rec_models(old(out)@).push(r.rec_model()),
{
    out.push(r);
    assert(rec_models(out@) =~= rec_models(old(out)@).push(r.rec_model()));
}

fn push_codon(out: &mut Vec<GtfRecord>, codon: &Vec<(u32, u32, Frame)>, feature: GtfFeature, t: &Transcript, source: &str)
    requires
        records_of(old(out)@, *t, source@),
    ensures
        records_of(final(out)@, *t, source@),
        rec_models(final(out)@) == rec_models(old(out)@) + codon_records(codon@, feature),
{
    let ghost start = rec_models(out@);
    let mut i: usize = 0;
    while i < codon.len()
        invariant
            0 <= i <= codon@.len(),
            records_of(out@, *t, source@),
            rec_models(out@) == start + codon_records(codon@.subrange(0, i as int), feature),
        decreases codon@.len() - i,
    {
        let p = codon[i];
        let r = make_record(t, source, feature, p.0, p.1, p.2, None);
        push_record(out, r, t, source);
        proof {
            assert(codon_records(codon@.subrange(0, i + 1), feature) =~= codon_records(codon@.subrange(0, i as int), feature).push((feature, p.0, p.1, p.2, None::<usize>)));
        }
        i = i + 1;
    }
    assert(codon@.subrange(0, codon@.len() as int) =~= codon@);
}

/// The GTF records of a coding or non-coding transcript (see [`composed`]).
pub fn compose_lines(transcript: &Transcript, source: &str) -> (r: Vec<GtfRecord>)
    requires
        transcript.spec_exons().len() > 0,
        cds_paired(transcript.spec_exons()),
    ensures
        rec_models(r@) == composed(*transcript),
        records_of(r@, *transcript, source@),
{
    let t = transcript;
    let mut lines: Vec<GtfRecord> = Vec::new();
    let first = make_record(t, source, GtfFeature::Transcript, t.tx_start(), t.tx_end(), Frame::Unspecified, None);
    assert(rec_models(lines@) =~= Seq::<RecModel>::empty());
    push_record(&mut lines, first, t, source);
    let start_codon = t.start_codon();
    let stop_codon = t.stop_codon();
    if start_codon.len() > 0 && t.cds_start_codon_stat() == CdsStat::Complete {
        push_codon(&mut lines, &start_codon, GtfFeature::StartCodon, t, source);
    }
    if stop_codon.len() > 0 && t.cds_stop_codon_stat() == CdsStat::Complete {
        push_codon(&mut lines, &stop_codon, GtfFeature::StopCodon, t, source);
    }
    let ghost head = rec_models(lines@);
    let coding = t.is_coding();
    let cds_start = t.cds_start();
    let cds_end = t.cds_end();
    let exons = t.exons();
    let mut i: usize = 0;
    while i < exons.len()
        invariant
            0 <= i <= exons@.len(),
            exons@ == t.spec_exons(),
            cds_paired(exons@),
            coding == t.spec_is_coding(),
            cds_start == t.spec_cds_start(),
            cds_end == t.spec_cds_end(),
            stop_codon@ == t.spec_stop_codon(),
            records_of(lines@, *t, source@),
            rec_models(lines@) == head + exons_records(*t, exons@, i as int, stop_codon@),
            head == seq![(GtfFeature::Transcript, t.spec_exons()[0].spec_start(), t.spec_exons().last().spec_end(), Frame::Unspecified, None::<usize>)]
                + (if t.spec_start_codon().len() > 0 && t.spec_start_codon_stat() == CdsStat::Complete {
                codon_records(t.spec_start_codon(), GtfFeature::StartCodon)
            } else {
                seq![]
            }) + (if stop_codon@.len() > 0 && t.spec_stop_codon_stat() == CdsStat::Complete {
                codon_records(stop_codon@, GtfFeature::StopCodon)
            } else {
                seq![]
            }),
        decreases exons@.len() - i,
    {
        let exon = &exons[i];
        let num = i + 1;
        let ghost before = rec_models(lines@);
        push_exon_records(&mut lines, t, exon, num, &stop_codon, coding, cds_start, cds_end, source);
        proof {
            assert(exons_records(*t, exons@, i + 1, stop_codon@) == exons_records(*t, exons@, i as int, stop_codon@) + exon_records(*t, exons@[i as int], (i + 1) as usize, stop_codon@));
        }
        i = i + 1;
    }
    lines
}

fn push_cds_record(
    lines: &mut Vec<GtfRecord>,
    t: &Transcript,
    exon: &Exon,
    num: usize,
    stop_codon: &Vec<(u32, u32, Frame)>,
    source: &str,
)
    requires
        records_of(old(lines)@, *t, source@),
        exon.spec_is_coding() ==> exon.spec_cds_end() is Some,
    ensures
        records_of(final(lines)@, *t, source@),
        rec_models(final(lines)@) == rec_models(old(lines)@) + (if exon.spec_is_coding() {
            cds_record(*t, *exon, num, stop_codon@)
        } else {
            seq![]
        }),
{
    if let (Some(cs), Some(ce)) = (exon.cds_start(), exon.cds_end()) {
        let cs = *cs;
        let ce = *ce;
        let n = stop_codon.len();
        if t.cds_stop_codon_stat() == CdsStat::Complete && n > 0 {
            let sub = crate::relations::subtract((&cs, &ce), (&stop_codon[0].0, &stop_codon[n - 1].1));
            if sub.len() > 0 {
                let piece = if t.strand() == Strand::Minus {
                    sub[sub.len() - 1]
                } else {
                    sub[0]
                };
                let r = make_record(t, source, GtfFeature::CDS, piece.0, piece.1, *exon.frame_offset(), Some(num));
                push_record(lines, r, t, source);
            } else {
                assert(rec_models(lines@) =~= rec_models(old(lines)@) + Seq::<RecModel>::empty());
            }
        } else {
            let r = make_record(t, source, GtfFeature::CDS, cs, ce, *exon.frame_offset(), Some(num));
            push_record(lines, r, t, source);
        }
    } else {
        assert(rec_models(lines@) =~= rec_models(old(lines)@) + Seq::<RecModel>::empty());
    }
}

fn push_exon_records(
    lines: &mut Vec<GtfRecord>,
    t: &Transcript,
    exon: &Exon,
    num: usize,
    stop_codon: &Vec<(u32, u32, Frame)>,
    coding: bool,
    cds_start: Option<u32>,
    cds_end: Option<u32>,
    source: &str,
)
    requires
        records_of(old(lines)@, *t, source@),
        exon.spec_is_coding() ==> exon.spec_cds_end() is Some,
        cds_paired(t.spec_exons()),
        coding == t.spec_is_coding(),
        cds_start == t.spec_cds_start(),
        cds_end == t.spec_cds_end(),
    ensures
        records_of(final(lines)@, *t, source@),
        rec_models(final(lines)@) == rec_models(old(lines)@) + exon_records(*t, *exon, num, stop_codon@),
{
    proof {
        lemma_coding_has_bounds(t.spec_exons());
    }
    let ghost before = rec_models(lines@);
    let r = make_record(t, source, GtfFeature::Exon, exon.start(), exon.end(), Frame::Unspecified, Some(num));
    push_record(lines, r, t, source);
    let ghost a1 = rec_models(lines@);
    push_cds_record(lines, t, exon, num, stop_codon, source);
    let ghost a2 = rec_models(lines@);
    if coding && exon.start() < cds_start.unwrap() {
        let u = utr_record_of(t, exon, num, true, source);
        push_record(lines, u, t, source);
    }
    let ghost a3 = rec_models(lines@);
    if coding && exon.end() > cds_end.unwrap() {
        let u = utr_record_of(t, exon, num, false, source);
        push_record(lines, u, t, source);
    }
    assert(rec_models(lines@) =~= before + exon_records(*t, *exon, num, stop_codon@));
}

fn utr_record_of(t: &Transcript, e: &Exon, num: usize, left: bool, source: &str) -> (r: GtfRecord)
    ensures
        r.rec_model() == utr_record(*t, *e, num, left),
        r.spec_chrom() == t.spec_chrom(),
        r.spec_source() == source@,
        r.spec_strand() == t.spec_strand(),
        r.spec_gene() == t.spec_gene(),
        r.spec_transcript() == t.spec_name(),
{
    let f = match (left, t.strand()) {
        (true, Strand::Plus) => GtfFeature::UTR5,
        (false, Strand::Plus) => GtfFeature::UTR3,
        (true, Strand::Minus) => GtfFeature::UTR3,
        (false, Strand::Minus) => GtfFeature::UTR5,
        _ => GtfFeature::UTR,
    };
    let start = match (left, e.cds_end()) {
        (false, Some(x)) => if *x < u32::MAX {
            *x + 1
        } else {
            *x
        },
        _ => e.start(),
    };
    let end = match (left, e.cds_start()) {
        (true, Some(x)) => if *x > 0 {
            *x - 1
        } else {
            *x
        },
        _ => e.end(),
    };
    make_record(t, source, f, start, end, Frame::Unspecified, Some(num))
}

proof fn lemma_coding_has_bounds(exons: Seq<Exon>)
    requires
        cds_paired(exons),
    ensures
        crate::transcript::any_coding(exons) ==> crate::transcript::first_cds_start(exons, 0) is Some
            && crate::transcript::last_cds_end(exons, exons.len() as int) is Some,
{
    if crate::transcript::any_coding(exons) {
        let k = choose|k: int| 0 <= k < exons.len() && #[trigger] exons[k].spec_is_coding();
        lemma_first_cds_start_some(exons, 0, k);
        lemma_last_cds_end_some(exons, exons.len() as int, k);
    }
}

proof fn lemma_first_cds_start_some(exons: Seq<Exon>, i: int, k: int)
    requires
        cds_paired(exons),
        0 <= i <= k < exons.len(),
        exons[k].spec_is_coding(),
    ensures
        crate::transcript::first_cds_start(exons, i) is Some,
    decreases k - i,
{
    if i < k && exons[i].spec_cds_start() is None {
        lemma_first_cds_start_some(exons, i + 1, k);
    }
}

proof fn lemma_last_cds_end_some(exons: Seq<Exon>, n: int, k: int)
    requires
        cds_paired(exons),
        0 <= k < n <= exons.len(),
        exons[k].spec_is_coding(),
    ensures
        crate::transcript::last_cds_end(exons, n) is Some,
    decreases n - k,
{
    assert(exons[k].spec_cds_end() is Some);
    if n - 1 > k && exons[n - 1].spec_cds_end() is None {
        lemma_last_cds_end_some(exons, n - 1, k);
    }
}

/// The fragments `rs` are the GTF lines `ds`, one for one.
pub open spec fn records_of_lines(rs: Seq<GtfRecord>, ds: Seq<Seq<u8>>) -> bool {
    &&& rs.len() == ds.len()
    &&& forall|k: int| 0 <= k < ds.len() ==> Some((#[trigger] rs[k]).line_model()) == gtf_line(strip_back(ds[k], true, 0))
}

/// The transcripts of a GTF text: every line that is not a comment is one
/// fragment (trailing whitespace removed); the fragments are then grouped
/// and merged (see [`transcripts_from_records`]).
pub fn transcripts_from_text(text: &str) -> (r: Result<Vec<Transcript>, ReadWriteError>)
    ensures
        ({
            let ls = crate::refgene::text_lines(text.spec_bytes());
            let ds = crate::refgene::data_lines(ls, ls.len() as int);
            &&& (exists|k: int| 0 <= k < ds.len() && gtf_line(strip_back(#[trigger] ds[k], true, 0)) is None)
                ==> r is Err
            &&& (forall|k: int| 0 <= k < ds.len() ==> gtf_line(strip_back(#[trigger] ds[k], true, 0)) is Some)
                ==> (r is Ok <==> exists|rs: Seq<GtfRecord>|
                #[trigger] records_of_lines(rs, ds) && groups_ok(rs))
            &&& r is Ok ==> exists|rs: Seq<GtfRecord>|
                #[trigger] records_of_lines(rs, ds) && r->Ok_0@.len() == grouped(rs, rs.len() as int).len()
                    && (forall|k: int|
                    0 <= k < r->Ok_0@.len() ==> transcript_of_group(
                        #[trigger] r->Ok_0@[k],
                        grouped(rs, rs.len() as int)[k].0,
                        grouped(rs, rs.len() as int)[k].1,
                    ))
        }),
{
    let b = text.as_bytes();
    let ranges = split_ranges(b, 0x0a);
    let ghost p = split_on(b@, 0x0a);
    let ghost ls = crate::refgene::text_lines(b@);
    let n = if ranges.len() > 0 && ranges[ranges.len() - 1].0 == ranges[ranges.len() - 1].1 {
        ranges.len() - 1
    } else {
        ranges.len()
    };
    proof {
        if ranges@.len() > 0 {
            let j = ranges@.len() - 1;
            assert(b@.subrange(ranges@[j].0 as int, ranges@[j].1 as int) == p[j]);
        }
        assert(ls.len() == n);
        assert forall|k: int| 0 <= k < n implies #[trigger] ls[k] == p[k] by {}
    }
    let mut records: Vec<GtfRecord> = Vec::new();
    let mut k: usize = 0;
    while k < n
        invariant
            0 <= k <= n <= ranges@.len(),
            n == ls.len(),
            ls == crate::refgene::text_lines(text.spec_bytes()),
            b@ == text.spec_bytes(),
            p == split_on(b@, 0x0a),
            ranges@.len() == p.len(),
            forall|j: int| 0 <= j < n ==> #[trigger] ls[j] == p[j],
            forall|j: int|
                0 <= j < ranges@.len() ==> {
                    &&& (#[trigger] ranges@[j]).0 <= ranges@[j].1 <= b@.len()
                    &&& b@.subrange(ranges@[j].0 as int, ranges@[j].1 as int) == p[j]
                    &&& (ranges@[j].0 == 0 || b@[ranges@[j].0 - 1] == 0x0a)
                    &&& (ranges@[j].1 == b@.len() || b@[ranges@[j].1 as int] == 0x0a)
                },
            records_of_lines(records@, crate::refgene::data_lines(ls, k as int)),
        decreases n - k,
    {
        let (a, e) = ranges[k];
        let e2 = trim_end_range(b, a, e);
        let line = piece(text, a, e2);
        assert(ls[k as int] == b@.subrange(a as int, e as int));
        let full = piece(text, a, e);
        if !crate::refgene::is_comment(full) {
            match GtfRecord::from_str(line) {
                Ok(r) => {
                    let ghost before = records@;
                    records.push(r);
                    proof {
                        let ds = crate::refgene::data_lines(ls, k as int + 1);
                        assert(ds == crate::refgene::data_lines(ls, k as int).push(ls[k as int]));
                        assert forall|j: int| 0 <= j < ds.len() implies Some((#[trigger] records@[j]).line_model()) == gtf_line(strip_back(ds[j], true, 0)) by {
                            if j < before.len() {
                                assert(records@[j] == before[j]);
                            }
                        }
                    }
                },
                Err(err) => {
                    proof {
                        let ds = crate::refgene::data_lines(ls, k as int + 1);
                        assert(ds[ds.len() - 1] == ls[k as int]);
                        crate::refgene::lemma_data_lines_prefix(ls, k as int + 1, ls.len() as int);
                        let all = crate::refgene::data_lines(ls, ls.len() as int);
                        assert(all[ds.len() - 1] == ls[k as int]);
                        assert(gtf_line(strip_back(all[ds.len() - 1], true, 0)) is None);
                    }
                    return Err(ReadWriteError { message: err.to_string() });
                },
            }
        }
        k = k + 1;
    }
    proof {
        assert(crate::refgene::data_lines(ls, n as int) == crate::refgene::data_lines(ls, ls.len() as int));
        let ds = crate::refgene::data_lines(ls, ls.len() as int);
        assert forall|k: int| 0 <= k < ds.len() implies gtf_line(strip_back(#[trigger] ds[k], true, 0)) is Some by {
            assert(Some(records@[k].line_model()) == gtf_line(strip_back(ds[k], true, 0)));
        }
    }
    let ghost rs = records@;
    let r = transcripts_from_records(records);
    proof {
        let ds = crate::refgene::data_lines(ls, ls.len() as int);
        assert(records_of_lines(rs, ds));
        if r is Ok {
            assert(groups_ok(rs));
        }
        if exists|rs2: Seq<GtfRecord>| #[trigger] records_of_lines(rs2, ds) && groups_ok(rs2) {
            let rs2 = choose|rs2: Seq<GtfRecord>| #[trigger] records_of_lines(rs2, ds) && groups_ok(rs2);
            assert forall|k: int| 0 <= k < rs.len() implies (#[trigger] rs[k]).line_model() == rs2[k].line_model() by {
                assert(Some(rs[k].line_model()) == gtf_line(strip_back(ds[k], true, 0)));
                assert(Some(rs2[k].line_model()) == gtf_line(strip_back(ds[k], true, 0)));
            }
            lemma_groups_ok_by_models(rs, rs2);
        }
    }
    r
}

/// Every group of the fragments `rs` makes a transcript.
pub open spec fn groups_ok(rs: Seq<GtfRecord>) -> bool {
    forall|k: int|
        0 <= k < grouped(rs, rs.len() as int).len() ==> group_ok(
            #[trigger] grouped(rs, rs.len() as int)[k].1,
        )
}

/// The names of the groups and the line models of their fragments.
pub open spec fn group_shape(gs: Seq<(Seq<char>, Seq<GtfRecord>)>) -> Seq<(Seq<char>, Seq<LineModel>)> {
    gs.map_values(
        |g: (Seq<char>, Seq<GtfRecord>)| (g.0, g.1.map_values(|r: GtfRecord| r.line_model())),
    )
}

proof fn lemma_group_index_by_shape(
    g1: Seq<(Seq<char>, Seq<GtfRecord>)>,
    g2: Seq<(Seq<char>, Seq<GtfRecord>)>,
    name: Seq<char>,
    n: int,
)
    requires
        group_shape(g1) == group_shape(g2),
    ensures
        group_index(g1, name, n) == group_index(g2, name, n),
    decreases n,
{
    assert(g1.len() == group_shape(g1).len());
    assert(g2.len() == group_shape(g2).len());
    if 0 < n <= g1.len() {
        assert(group_shape(g1)[n - 1].0 == g1[n - 1].0);
        assert(group_shape(g2)[n - 1].0 == g2[n - 1].0);
        lemma_group_index_by_shape(g1, g2, name, n - 1);
    }
}

proof fn lemma_grouped_by_models(r1: Seq<GtfRecord>, r2: Seq<GtfRecord>, n: int)
    requires
        r1.len() == r2.len(),
        0 <= n <= r1.len(),
        forall|k: int| 0 <= k < r1.len() ==> (#[trigger] r1[k]).line_model() == r2[k].line_model(),
    ensures
        group_shape(grouped(r1, n)) == group_shape(grouped(r2, n)),
    decreases n,
{
    if n == 0 {
        assert(group_shape(grouped(r1, 0)) =~= group_shape(grouped(r2, 0)));
    } else {
        lemma_grouped_by_models(r1, r2, n - 1);
        let g1 = grouped(r1, n - 1);
        let g2 = grouped(r2, n - 1);
        let a = r1[n - 1];
        let b = r2[n - 1];
        assert(a.line_model() == b.line_model());
        assert(g1.len() == group_shape(g1).len());
        assert(g2.len() == group_shape(g2).len());
        lemma_group_index_by_shape(g1, g2, a.spec_transcript(), g1.len() as int);
        match group_index(g1, a.spec_transcript(), g1.len() as int) {
            Some(k) => {
                lemma_group_index_in_range(g1, a.spec_transcript(), g1.len() as int);
                if kept(a.spec_feature()) {
                    let n1 = g1.update(k, (g1[k].0, g1[k].1.push(a)));
                    let n2 = g2.update(k, (g2[k].0, g2[k].1.push(b)));
                    assert(grouped(r1, n) == n1);
                    assert(grouped(r2, n) == n2);
                    assert(group_shape(g1)[k] == group_shape(g2)[k]);
                    let m1 = g1[k].1.map_values(|r: GtfRecord| r.line_model());
                    let m2 = g2[k].1.map_values(|r: GtfRecord| r.line_model());
                    assert(m1 == m2);
                    assert(g1[k].1.push(a).map_values(|r: GtfRecord| r.line_model()) =~= m1.push(a.line_model()));
                    assert(g2[k].1.push(b).map_values(|r: GtfRecord| r.line_model()) =~= m2.push(b.line_model()));
                    assert forall|j: int| 0 <= j < n1.len() implies #[trigger] group_shape(n1)[j] == group_shape(n2)[j] by {
                        if j != k {
                            assert(group_shape(g1)[j] == group_shape(g2)[j]);
                        }
                    }
                    assert(group_shape(n1) =~= group_shape(n2));
                } else {
                    assert(grouped(r1, n) == g1);
                    assert(grouped(r2, n) == g2);
                }
            },
            None => {
                let e1: Seq<GtfRecord> = if kept(a.spec_feature()) { seq![a] } else { seq![] };
                let e2: Seq<GtfRecord> = if kept(b.spec_feature()) { seq![b] } else { seq![] };
                let n1 = g1.push((a.spec_transcript(), e1));
                let n2 = g2.push((b.spec_transcript(), e2));
                assert(grouped(r1, n) == n1);
                assert(grouped(r2, n) == n2);
                assert(e1.map_values(|r: GtfRecord| r.line_model()) =~= e2.map_values(|r: GtfRecord| r.line_model()));
                assert forall|j: int| 0 <= j < n1.len() implies #[trigger] group_shape(n1)[j] == group_shape(n2)[j] by {
                    if j < g1.len() {
                        assert(group_shape(g1)[j] == group_shape(g2)[j]);
                    }
                }
                assert(group_shape(n1) =~= group_shape(n2));
            },
        }
    }
}

proof fn lemma_group_index_in_range(gs: Seq<(Seq<char>, Seq<GtfRecord>)>, name: Seq<char>, n: int)
    ensures
        group_index(gs, name, n) matches Some(k) ==> 0 <= k < n && k < gs.len(),
    decreases n,
{
    if 0 < n <= gs.len() {
        lemma_group_index_in_range(gs, name, n - 1);
    }
}

proof fn lemma_groups_ok_by_models(r1: Seq<GtfRecord>, r2: Seq<GtfRecord>)
    requires
        r1.len() == r2.len(),
        forall|k: int| 0 <= k < r1.len() ==> (#[trigger] r1[k]).line_model() == r2[k].line_model(),
    ensures
        groups_ok(r1) == groups_ok(r2),
{
    lemma_grouped_by_models(r1, r2, r1.len() as int);
    let g1 = grouped(r1, r1.len() as int);
    let g2 = grouped(r2, r2.len() as int);
    assert(g1.len() == group_shape(g1).len());
    assert(g2.len() == group_shape(g2).len());
    assert(g1.len() == g2.len());
    assert forall|k: int| 0 <= k < g1.len() implies group_ok(#[trigger] g1[k].1) == group_ok(g2[k].1) by {
        assert(group_shape(g1)[k] == group_shape(g2)[k]);
        let m1 = g1[k].1.map_values(|r: GtfRecord| r.line_model());
        let m2 = g2[k].1.map_values(|r: GtfRecord| r.line_model());
        assert(m1 == m2);
        assert(m1.len() == g1[k].1.len());
        assert(m2.len() == g2[k].1.len());
        if g1[k].1.len() > 0 {
            assert(m1[0] == g1[k].1[0].line_model());
            assert(m2[0] == g2[k].1[0].line_model());
        }
    }
    if groups_ok(r1) {
        assert forall|k: int| 0 <= k < g2.len() implies group_ok(#[trigger] g2[k].1) by {
            assert(group_ok(g1[k].1));
        }
    }
    if groups_ok(r2) {
        assert forall|k: int| 0 <= k < g1.len() implies group_ok(#[trigger] g1[k].1) by {
            assert(group_ok(g2[k].1));
        }
    }
}

} // verus!
