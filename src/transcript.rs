//! A transcript: an ordered list of exons with identity, strand and
//! CDS-completeness metadata.
use vstd::prelude::*;
use crate::codon::{Codon, Piece, downstream_codon, upstream_codon};
use crate::errors::BuildTranscriptError;
use crate::exon::Exon;
use crate::frame::Frame;
use crate::status::{CdsStat, Strand};
use crate::text::{append_number, decimal, owned};

verus! {

/// A transcript. Equality compares the name, chromosome, strand, gene,
/// both CDS-completeness values and the exons; the `bin` is left out.
#[derive(Debug)]
pub struct Transcript {
    bin: Option<u16>,
    name: String,
    chrom: String,
    strand: Strand,
    cds_start_stat: CdsStat,
    cds_end_stat: CdsStat,
    exons: Vec<Exon>,
    gene_symbol: String,
}

/// A chromosome with a start and an end position.
pub type Coordinate<'a> = (&'a str, u32, u32);

pub type CoordinateVector<'a> = Vec<Coordinate<'a>>;

/// The start and end of each coordinate.
pub open spec fn spans(v: Seq<Coordinate>) -> Seq<(u32, u32)> {
    v.map_values(|c: Coordinate| (c.1, c.2))
}

/// Every coordinate lies on `chrom`.
pub open spec fn all_on(v: Seq<Coordinate>, chrom: Seq<char>) -> bool {
    forall|k: int| 0 <= k < v.len() ==> (#[trigger] v[k]).0@ == chrom
}

/// Start and end of each of `exons[..i]`.
pub open spec fn exon_spans(exons: Seq<Exon>, i: int) -> Seq<(u32, u32)>
    decreases i,
{
    if i <= 0 || i > exons.len() {
        seq![]
    } else {
        exon_spans(exons, i - 1).push((exons[i - 1].spec_start(), exons[i - 1].spec_end()))
    }
}

/// The coding part of each coding exon of `exons[..i]`.
pub open spec fn cds_spans(exons: Seq<Exon>, i: int) -> Seq<(u32, u32)>
    decreases i,
{
    if i <= 0 || i > exons.len() {
        seq![]
    } else if exons[i - 1].spec_is_coding() {
        cds_spans(exons, i - 1).push(
            (exons[i - 1].spec_cds_start().unwrap(), exons[i - 1].spec_cds_end().unwrap()),
        )
    } else {
        cds_spans(exons, i - 1)
    }
}

/// The non-coding parts of one exon: its flanks around the coding part,
/// or the whole exon if it is non-coding.
pub open spec fn exon_utr(e: Exon) -> Seq<(u32, u32)> {
    if e.spec_is_coding() {
        let cs = e.spec_cds_start().unwrap();
        let ce = e.spec_cds_end().unwrap();
        (if cs > e.spec_start() {
            seq![(e.spec_start(), (cs - 1) as u32)]
        } else {
            seq![]
        }) + (if ce < e.spec_end() {
            seq![((ce + 1) as u32, e.spec_end())]
        } else {
            seq![]
        })
    } else {
        seq![(e.spec_start(), e.spec_end())]
    }
}

/// The non-coding parts of `exons[..i]`, left to right.
pub open spec fn utr_spans(exons: Seq<Exon>, i: int) -> Seq<(u32, u32)>
    decreases i,
{
    if i <= 0 || i > exons.len() {
        seq![]
    } else {
        utr_spans(exons, i - 1) + exon_utr(exons[i - 1])
    }
}

/// The spans that end before `bound`.
pub open spec fn left_of(s: Seq<(u32, u32)>, bound: u32) -> Seq<(u32, u32)>
    decreases s.len(),
{
    if s.len() == 0 {
        seq![]
    } else if s.last().1 < bound {
        left_of(s.drop_last(), bound).push(s.last())
    } else {
        left_of(s.drop_last(), bound)
    }
}

/// The spans that start after `bound`.
pub open spec fn right_of(s: Seq<(u32, u32)>, bound: u32) -> Seq<(u32, u32)>
    decreases s.len(),
{
    if s.len() == 0 {
        seq![]
    } else if s.last().0 > bound {
        right_of(s.drop_last(), bound).push(s.last())
    } else {
        right_of(s.drop_last(), bound)
    }
}

/// Keeps the coordinates that end before `bound` (`left`), or those that
/// start after it.
fn retain_side<'a>(v: CoordinateVector<'a>, bound: u32, left: bool, chrom: Ghost<Seq<char>>) -> (r:
    CoordinateVector<'a>)
    requires
        all_on(v@, chrom@),
    ensures
        spans(r@) == (if left {
            left_of(spans(v@), bound)
        } else {
            right_of(spans(v@), bound)
        }),
        all_on(r@, chrom@),
{
    let mut r: CoordinateVector<'a> = Vec::new();
    let mut i: usize = 0;
    while i < v.len()
        invariant
            0 <= i <= v@.len(),
            spans(r@) == (if left {
                left_of(spans(v@.subrange(0, i as int)), bound)
            } else {
                right_of(spans(v@.subrange(0, i as int)), bound)
            }),
            all_on(v@, chrom@),
            all_on(r@, chrom@),
        decreases v@.len() - i,
    {
        let c = v[i];
        proof {
            let pre = v@.subrange(0, i as int);
            assert(v@.subrange(0, i + 1) =~= pre.push(v@[i as int]));
            assert(spans(pre.push(v@[i as int])) =~= spans(pre).push((c.1, c.2)));
            assert(spans(pre.push(v@[i as int])).drop_last() =~= spans(pre));
            assert(spans(r@.push(c)) =~= spans(r@).push((c.1, c.2)));
        }
        let keep = if left { c.2 < bound } else { c.1 > bound };
        if keep {
            r.push(c);
        }
        i = i + 1;
    }
    assert(v@.subrange(0, v@.len() as int) =~= v@);
    r
}

/// The cds start of the first exon in `exons[i..]` that has one.
pub open spec fn first_cds_start(exons: Seq<Exon>, i: int) -> Option<u32>
    decreases exons.len() - i,
{
    if i < 0 || i >= exons.len() {
        None
    } else if exons[i].spec_cds_start().is_some() {
        exons[i].spec_cds_start()
    } else {
        first_cds_start(exons, i + 1)
    }
}

/// The cds end of the last exon in `exons[..i]` that has one.
pub open spec fn last_cds_end(exons: Seq<Exon>, i: int) -> Option<u32>
    decreases i,
{
    if i <= 0 || i > exons.len() {
        None
    } else if exons[i - 1].spec_cds_end().is_some() {
        exons[i - 1].spec_cds_end()
    } else {
        last_cds_end(exons, i - 1)
    }
}

/// Some exon has a coding part.
pub open spec fn any_coding(exons: Seq<Exon>) -> bool {
    exists|k: int| 0 <= k < exons.len() && #[trigger] exons[k].spec_is_coding()
}

/// Every exon has both coding bounds or neither, and counting its coding
/// bases fits in a `u32`.
pub open spec fn cds_paired(exons: Seq<Exon>) -> bool {
    forall|k: int| 0 <= k < exons.len() ==> {
        &&& #[trigger] exons[k].spec_cds_start().is_some() == exons[k].spec_cds_end().is_some()
        &&& exons[k].spec_is_coding() ==> exons[k].has_cds()
    }
}

/// Well-formed exons, in ascending order and without overlap.
pub open spec fn exons_ordered(exons: Seq<Exon>) -> bool {
    &&& forall|k: int| 0 <= k < exons.len() ==> (#[trigger] exons[k]).wf()
    &&& forall|a: int, b: int|
        0 <= a < b < exons.len() ==> (#[trigger] exons[a]).spec_end() < (#[trigger] exons[b]).spec_start()
}

impl Transcript {
    pub closed spec fn spec_bin(&self) -> Option<u16> {
        self.bin
    }

    pub closed spec fn spec_name(&self) -> Seq<char> {
        self.name@
    }

    pub closed spec fn spec_chrom(&self) -> Seq<char> {
        self.chrom@
    }

    pub closed spec fn spec_gene(&self) -> Seq<char> {
        self.gene_symbol@
    }

    pub closed spec fn spec_strand(&self) -> Strand {
        self.strand
    }

    pub closed spec fn spec_cds_start_stat(&self) -> CdsStat {
        self.cds_start_stat
    }

    pub closed spec fn spec_cds_end_stat(&self) -> CdsStat {
        self.cds_end_stat
    }

    pub closed spec fn spec_exons(&self) -> Seq<Exon> {
        self.exons@
    }

    /// The status at the start codon: the genomic left end on the plus
    /// strand, the right end on the minus strand.
    pub open spec fn spec_start_codon_stat(&self) -> CdsStat {
        match self.spec_strand() {
            Strand::Minus => self.spec_cds_end_stat(),
            _ => self.spec_cds_start_stat(),
        }
    }

    /// The status at the stop codon.
    pub open spec fn spec_stop_codon_stat(&self) -> CdsStat {
        match self.spec_strand() {
            Strand::Minus => self.spec_cds_start_stat(),
            _ => self.spec_cds_end_stat(),
        }
    }

    /// The transcript reads left to right; an unknown strand counts as plus.
    pub open spec fn spec_forward(&self) -> bool {
        self.spec_strand() != Strand::Minus
    }

    pub open spec fn spec_cds_start(&self) -> Option<u32> {
        first_cds_start(self.spec_exons(), 0)
    }

    pub open spec fn spec_cds_end(&self) -> Option<u32> {
        last_cds_end(self.spec_exons(), self.spec_exons().len() as int)
    }

    pub open spec fn spec_is_coding(&self) -> bool {
        any_coding(self.spec_exons())
    }

    /// Fields that are equal between two transcripts.
    pub open spec fn same_as(&self, o: &Transcript) -> bool {
        &&& self.spec_name() == o.spec_name()
        &&& self.spec_chrom() == o.spec_chrom()
        &&& self.spec_strand() == o.spec_strand()
        &&& self.spec_gene() == o.spec_gene()
        &&& self.spec_cds_start_stat() == o.spec_cds_start_stat()
        &&& self.spec_cds_end_stat() == o.spec_cds_end_stat()
        &&& self.spec_exons() == o.spec_exons()
    }

    pub fn bin(&self) -> (r: &Option<u16>)
        ensures
            *r == self.spec_bin(),
    {
        &self.bin
    }

    pub fn name(&self) -> (r: &str)
        ensures
            r@ == self.spec_name(),
    {
        self.name.as_str()
    }

    pub fn gene(&self) -> (r: &str)
        ensures
            r@ == self.spec_gene(),
    {
        self.gene_symbol.as_str()
    }

    pub fn chrom(&self) -> (r: &str)
        ensures
            r@ == self.spec_chrom(),
    {
        self.chrom.as_str()
    }

    pub fn strand(&self) -> (r: Strand)
        ensures
            r == self.spec_strand(),
    {
        self.strand
    }

    pub fn strand_mut(&mut self) -> (r: &mut Strand)
        ensures
            *r == old(self).spec_strand(),
            final(self).spec_strand() == *final(r),
            final(self).spec_exons() == old(self).spec_exons(),
            final(self).spec_name() == old(self).spec_name(),
            final(self).spec_chrom() == old(self).spec_chrom(),
            final(self).spec_gene() == old(self).spec_gene(),
            final(self).spec_cds_start_stat() == old(self).spec_cds_start_stat(),
            final(self).spec_cds_end_stat() == old(self).spec_cds_end_stat(),
            final(self).spec_bin() == old(self).spec_bin(),
    {
        &mut self.strand
    }

    pub fn cds_start_stat(&self) -> (r: CdsStat)
        ensures
            r == self.spec_cds_start_stat(),
    {
        self.cds_start_stat
    }

    pub fn cds_end_stat(&self) -> (r: CdsStat)
        ensures
            r == self.spec_cds_end_stat(),
    {
        self.cds_end_stat
    }

    pub fn cds_start_codon_stat(&self) -> (r: CdsStat)
        ensures
            r == self.spec_start_codon_stat(),
    {
        match self.strand {
            Strand::Minus => self.cds_end_stat,
            _ => self.cds_start_stat,
        }
    }

    pub fn cds_stop_codon_stat(&self) -> (r: CdsStat)
        ensures
            r == self.spec_stop_codon_stat(),
    {
        match self.strand {
            Strand::Minus => self.cds_start_stat,
            _ => self.cds_end_stat,
        }
    }

    pub fn exons(&self) -> (r: &Vec<Exon>)
        ensures
            r@ == self.spec_exons(),
    {
        &self.exons
    }

    pub fn exons_mut(&mut self) -> (r: &mut Vec<Exon>)
        ensures
            r@ == old(self).spec_exons(),
            final(self).spec_exons() == final(r)@,
            final(self).spec_strand() == old(self).spec_strand(),
            final(self).spec_name() == old(self).spec_name(),
            final(self).spec_chrom() == old(self).spec_chrom(),
            final(self).spec_gene() == old(self).spec_gene(),
            final(self).spec_cds_start_stat() == old(self).spec_cds_start_stat(),
            final(self).spec_cds_end_stat() == old(self).spec_cds_end_stat(),
            final(self).spec_bin() == old(self).spec_bin(),
    {
        &mut self.exons
    }

    pub fn push_exon(&mut self, exon: Exon)
        ensures
            final(self).spec_exons() == old(self).spec_exons().push(exon),
            final(self).spec_strand() == old(self).spec_strand(),
            final(self).spec_name() == old(self).spec_name(),
            final(self).spec_chrom() == old(self).spec_chrom(),
            final(self).spec_gene() == old(self).spec_gene(),
            final(self).spec_cds_start_stat() == old(self).spec_cds_start_stat(),
            final(self).spec_cds_end_stat() == old(self).spec_cds_end_stat(),
            final(self).spec_bin() == old(self).spec_bin(),
    {
        self.exons.push(exon)
    }

    /// Moves all of `exons` to the end of this transcript's exons.
    pub fn append_exons(&mut self, exons: &mut Vec<Exon>)
        ensures
            final(self).spec_exons() == old(self).spec_exons() + old(exons)@,
            final(exons)@.len() == 0,
            final(self).spec_strand() == old(self).spec_strand(),
            final(self).spec_name() == old(self).spec_name(),
            final(self).spec_chrom() == old(self).spec_chrom(),
            final(self).spec_gene() == old(self).spec_gene(),
            final(self).spec_cds_start_stat() == old(self).spec_cds_start_stat(),
            final(self).spec_cds_end_stat() == old(self).spec_cds_end_stat(),
            final(self).spec_bin() == old(self).spec_bin(),
    {
        self.exons.append(exons)
    }

    pub fn set_cds_start_stat(&mut self, stat: CdsStat)
        ensures
            final(self).spec_cds_start_stat() == stat,
            final(self).spec_cds_end_stat() == old(self).spec_cds_end_stat(),
            final(self).spec_exons() == old(self).spec_exons(),
            final(self).spec_strand() == old(self).spec_strand(),
            final(self).spec_name() == old(self).spec_name(),
            final(self).spec_chrom() == old(self).spec_chrom(),
            final(self).spec_gene() == old(self).spec_gene(),
            final(self).spec_bin() == old(self).spec_bin(),
    {
        self.cds_start_stat = stat;
    }

    pub fn set_cds_end_stat(&mut self, stat: CdsStat)
        ensures
            final(self).spec_cds_end_stat() == stat,
            final(self).spec_cds_start_stat() == old(self).spec_cds_start_stat(),
            final(self).spec_exons() == old(self).spec_exons(),
            final(self).spec_strand() == old(self).spec_strand(),
            final(self).spec_name() == old(self).spec_name(),
            final(self).spec_chrom() == old(self).spec_chrom(),
            final(self).spec_gene() == old(self).spec_gene(),
            final(self).spec_bin() == old(self).spec_bin(),
    {
        self.cds_end_stat = stat;
    }

    /// `true` unless the transcript is on the minus strand.
    pub fn forward(&self) -> (r: bool)
        ensures
            r == self.spec_forward(),
    {
        match self.strand {
            Strand::Plus => true,
            Strand::Unknown => true,
            Strand::Minus => false,
        }
    }

    pub fn exon_count(&self) -> (r: usize)
        ensures
            r == self.spec_exons().len(),
    {
        self.exons.len()
    }

    /// The start of the first exon.
    pub fn tx_start(&self) -> (r: u32)
        requires
            self.spec_exons().len() > 0,
        ensures
            r == self.spec_exons()[0].spec_start(),
    {
        self.exons[0].start()
    }

    /// The end of the last exon.
    pub fn tx_end(&self) -> (r: u32)
        requires
            self.spec_exons().len() > 0,
        ensures
            r == self.spec_exons().last().spec_end(),
    {
        self.exons[self.exons.len() - 1].end()
    }

    /// The start codon, as start, end and frame of each fragment, left to
    /// right; empty where the transcript is non-coding, has no strand, or
    /// no whole codon can be built.
    pub open spec fn spec_start_codon(&self) -> Seq<Piece> {
        if !self.spec_is_coding() {
            seq![]
        } else {
            match self.spec_strand() {
                Strand::Minus => match self.spec_cds_end() {
                    Some(p) => match upstream_codon(self, p) {
                        Some(s) => s,
                        None => seq![],
                    },
                    None => seq![],
                },
                Strand::Plus => match self.spec_cds_start() {
                    Some(p) => match downstream_codon(self, p) {
                        Some(s) => s,
                        None => seq![],
                    },
                    None => seq![],
                },
                Strand::Unknown => seq![],
            }
        }
    }

    /// The stop codon, as for [`Transcript::spec_start_codon`].
    pub open spec fn spec_stop_codon(&self) -> Seq<Piece> {
        if !self.spec_is_coding() {
            seq![]
        } else {
            match self.spec_strand() {
                Strand::Minus => match self.spec_cds_start() {
                    Some(p) => match downstream_codon(self, p) {
                        Some(s) => s,
                        None => seq![],
                    },
                    None => seq![],
                },
                Strand::Plus => match self.spec_cds_end() {
                    Some(p) => match upstream_codon(self, p) {
                        Some(s) => s,
                        None => seq![],
                    },
                    None => seq![],
                },
                Strand::Unknown => seq![],
            }
        }
    }

    /// The 5' non-coding parts: left of the CDS on the plus strand, right
    /// of it on the minus strand; all of them for a non-coding transcript.
    pub open spec fn spec_utr5(&self) -> Seq<(u32, u32)> {
        let u = utr_spans(self.spec_exons(), self.spec_exons().len() as int);
        if !self.spec_is_coding() {
            u
        } else if self.spec_forward() {
            match self.spec_cds_start() {
                Some(b) => left_of(u, b),
                None => u,
            }
        } else {
            match self.spec_cds_end() {
                Some(b) => right_of(u, b),
                None => u,
            }
        }
    }

    /// The 3' non-coding parts: right of the CDS on the plus strand, left
    /// of it on the minus strand; none for a non-coding transcript.
    pub open spec fn spec_utr3(&self) -> Seq<(u32, u32)> {
        let u = utr_spans(self.spec_exons(), self.spec_exons().len() as int);
        if !self.spec_is_coding() {
            seq![]
        } else if self.spec_forward() {
            match self.spec_cds_end() {
                Some(b) => right_of(u, b),
                None => u,
            }
        } else {
            match self.spec_cds_start() {
                Some(b) => left_of(u, b),
                None => u,
            }
        }
    }

    /// The start codon's fragments (see [`Transcript::spec_start_codon`]).
    pub fn start_codon(&self) -> (r: Vec<(u32, u32, Frame)>)
        requires
            cds_paired(self.spec_exons()),
        ensures
            r@ == self.spec_start_codon(),
    {
        if !self.is_coding() {
            return Vec::new();
        }
        let codon = match self.strand {
            Strand::Minus => match self.cds_end() {
                Some(p) => Codon::upstream(self, &p),
                None => return Vec::new(),
            },
            Strand::Plus => match self.cds_start() {
                Some(p) => Codon::downstream(self, &p),
                None => return Vec::new(),
            },
            Strand::Unknown => return Vec::new(),
        };
        match codon {
            Ok(res) => res.to_tuple(),
            Err(_) => Vec::new(),
        }
    }

    /// The stop codon's fragments (see [`Transcript::spec_stop_codon`]).
    pub fn stop_codon(&self) -> (r: Vec<(u32, u32, Frame)>)
        requires
            cds_paired(self.spec_exons()),
        ensures
            r@ == self.spec_stop_codon(),
    {
        if !self.is_coding() {
            return Vec::new();
        }
        let codon = match self.strand {
            Strand::Minus => match self.cds_start() {
                Some(p) => Codon::downstream(self, &p),
                None => return Vec::new(),
            },
            Strand::Plus => match self.cds_end() {
                Some(p) => Codon::upstream(self, &p),
                None => return Vec::new(),
            },
            Strand::Unknown => return Vec::new(),
        };
        match codon {
            Ok(res) => res.to_tuple(),
            Err(_) => Vec::new(),
        }
    }

    /// One coordinate per exon.
    pub fn exon_coordinates(&self) -> (r: CoordinateVector)
        ensures
            spans(r@) == exon_spans(self.spec_exons(), self.spec_exons().len() as int),
            all_on(r@, self.spec_chrom()),
    {
        let mut coords: CoordinateVector = Vec::new();
        let mut i: usize = 0;
        while i < self.exons.len()
            invariant
                0 <= i <= self.exons@.len(),
                spans(coords@) == exon_spans(self.exons@, i as int),
                all_on(coords@, self.chrom@),
            decreases self.exons@.len() - i,
        {
            let c = (self.chrom(), self.exons[i].start(), self.exons[i].end());
            proof {
                assert(spans(coords@.push(c)) =~= spans(coords@).push((c.1, c.2)));
            }
            coords.push(c);
            i = i + 1;
        }
        coords
    }

    /// The coding part of each coding exon.
    pub fn cds_coordinates(&self) -> (r: CoordinateVector)
        requires
            cds_paired(self.spec_exons()),
        ensures
            spans(r@) == cds_spans(self.spec_exons(), self.spec_exons().len() as int),
            all_on(r@, self.spec_chrom()),
    {
        let mut coords: CoordinateVector = Vec::new();
        let mut i: usize = 0;
        while i < self.exons.len()
            invariant
                0 <= i <= self.exons@.len(),
                cds_paired(self.exons@),
                spans(coords@) == cds_spans(self.exons@, i as int),
                all_on(coords@, self.chrom@),
            decreases self.exons@.len() - i,
        {
            let exon = &self.exons[i];
            if let (Some(s), Some(e)) = (exon.cds_start(), exon.cds_end()) {
                let c = (self.chrom(), *s, *e);
                proof {
                    assert(spans(coords@.push(c)) =~= spans(coords@).push((c.1, c.2)));
                }
                coords.push(c);
            }
            i = i + 1;
        }
        coords
    }

    /// The non-coding parts of the exons, left to right.
    pub fn utr_coordinates(&self) -> (r: CoordinateVector)
        requires
            cds_paired(self.spec_exons()),
        ensures
            spans(r@) == utr_spans(self.spec_exons(), self.spec_exons().len() as int),
            all_on(r@, self.spec_chrom()),
    {
        let mut coords: CoordinateVector = Vec::new();
        let mut i: usize = 0;
        while i < self.exons.len()
            invariant
                0 <= i <= self.exons@.len(),
                cds_paired(self.exons@),
                spans(coords@) == utr_spans(self.exons@, i as int),
                all_on(coords@, self.chrom@),
            decreases self.exons@.len() - i,
        {
            let exon = &self.exons[i];
            let ghost before = spans(coords@);
            if let (Some(cs), Some(ce)) = (exon.cds_start(), exon.cds_end()) {
                let cs = *cs;
                let ce = *ce;
                if cs > exon.start() {
                    let c = (self.chrom(), exon.start(), cs - 1);
                    proof {
                        assert(spans(coords@.push(c)) =~= spans(coords@).push((c.1, c.2)));
                    }
                    coords.push(c);
                }
                if ce < exon.end() {
                    let c = (self.chrom(), ce + 1, exon.end());
                    proof {
                        assert(spans(coords@.push(c)) =~= spans(coords@).push((c.1, c.2)));
                    }
                    coords.push(c);
                }
            } else {
                let c = (self.chrom(), exon.start(), exon.end());
                proof {
                    assert(spans(coords@.push(c)) =~= spans(coords@).push((c.1, c.2)));
                }
                coords.push(c);
            }
            assert(spans(coords@) =~= before + exon_utr(self.exons@[i as int]));
            i = i + 1;
        }
        coords
    }

    /// The 5' non-coding parts (see [`Transcript::spec_utr5`]).
    pub fn utr5_coordinates(&self) -> (r: CoordinateVector)
        requires
            cds_paired(self.spec_exons()),
        ensures
            spans(r@) == self.spec_utr5(),
            all_on(r@, self.spec_chrom()),
    {
        let utr = self.utr_coordinates();
        if self.is_coding() {
            if self.forward() {
                match self.cds_start() {
                    Some(b) => retain_side(utr, b, true, Ghost(self.spec_chrom())),
                    None => utr,
                }
            } else {
                match self.cds_end() {
                    Some(b) => retain_side(utr, b, false, Ghost(self.spec_chrom())),
                    None => utr,
                }
            }
        } else {
            utr
        }
    }

    /// The 3' non-coding parts (see [`Transcript::spec_utr3`]).
    pub fn utr3_coordinates(&self) -> (r: CoordinateVector)
        requires
            cds_paired(self.spec_exons()),
        ensures
            spans(r@) == self.spec_utr3(),
            all_on(r@, self.spec_chrom()),
    {
        let utr = self.utr_coordinates();
        if self.is_coding() {
            if self.forward() {
                match self.cds_end() {
                    Some(b) => retain_side(utr, b, false, Ghost(self.spec_chrom())),
                    None => utr,
                }
            } else {
                match self.cds_start() {
                    Some(b) => retain_side(utr, b, true, Ghost(self.spec_chrom())),
                    None => utr,
                }
            }
        } else {
            let none: CoordinateVector = Vec::new();
            assert(spans(none@) =~= Seq::<(u32, u32)>::empty());
            none
        }
    }

    /// `[gene] name (chrom:start-end)`.
    pub fn to_string(&self) -> (r: String)
        requires
            self.spec_exons().len() > 0,
        ensures
            r@ == "["@ + self.spec_gene() + "] "@ + self.spec_name() + " ("@ + self.spec_chrom() + ":"@
                + decimal(self.spec_exons()[0].spec_start() as nat) + "-"@ + decimal(
                self.spec_exons().last().spec_end() as nat,
            ) + ")"@,
    {
        let s = owned("[").concat(self.gene_symbol.as_str()).concat("] ").concat(
            self.name.as_str(),
        ).concat(" (").concat(self.chrom.as_str()).concat(":");
        let s = append_number(s, self.tx_start() as u64).concat("-");
        let s = append_number(s, self.tx_end() as u64);
        s.concat(")")
    }

    /// The cds start of the first exon that has one.
    pub fn cds_start(&self) -> (r: Option<u32>)
        ensures
            r == self.spec_cds_start(),
    {
        let mut i: usize = 0;
        while i < self.exons.len()
            invariant
                0 <= i <= self.exons@.len(),
                first_cds_start(self.exons@, 0) == first_cds_start(self.exons@, i as int),
            decreases self.exons@.len() - i,
        {
            if let Some(x) = self.exons[i].cds_start() {
                return Some(*x);
            }
            i = i + 1;
        }
        None
    }

    /// The cds end of the last exon that has one.
    pub fn cds_end(&self) -> (r: Option<u32>)
        ensures
            r == self.spec_cds_end(),
    {
        let mut i: usize = self.exons.len();
        while i > 0
            invariant
                0 <= i <= self.exons@.len(),
                last_cds_end(self.exons@, self.exons@.len() as int) == last_cds_end(
                    self.exons@,
                    i as int,
                ),
            decreases i,
        {
            if let Some(x) = self.exons[i - 1].cds_end() {
                return Some(*x);
            }
            i = i - 1;
        }
        None
    }

    /// `true` if some exon has a coding part.
    pub fn is_coding(&self) -> (r: bool)
        ensures
            r == self.spec_is_coding(),
    {
        let mut i: usize = 0;
        while i < self.exons.len()
            invariant
                0 <= i <= self.exons@.len(),
                forall|k: int| 0 <= k < i ==> !(#[trigger] self.exons@[k]).spec_is_coding(),
            decreases self.exons@.len() - i,
        {
            if self.exons[i].is_coding() {
                return true;
            }
            i = i + 1;
        }
        false
    }
}

impl PartialEq for Transcript {
    fn eq(&self, other: &Transcript) -> (r: bool) {
        if self.name != other.name || self.chrom != other.chrom || self.gene_symbol
            != other.gene_symbol {
            return false;
        }
        if self.strand != other.strand || self.cds_start_stat != other.cds_start_stat
            || self.cds_end_stat != other.cds_end_stat {
            return false;
        }
        if self.exons.len() != other.exons.len() {
            return false;
        }
        let mut i: usize = 0;
        while i < self.exons.len()
            invariant
                self.exons@.len() == other.exons@.len(),
                0 <= i <= self.exons@.len(),
                forall|k: int| 0 <= k < i ==> self.exons@[k] == other.exons@[k],
            decreases self.exons@.len() - i,
        {
            if self.exons[i] != other.exons[i] {
                return false;
            }
            i = i + 1;
        }
        assert(self.exons@ =~= other.exons@);
        true
    }
}

impl vstd::std_specs::cmp::PartialEqSpecImpl for Transcript {
    open spec fn obeys_eq_spec() -> bool {
        true
    }

    open spec fn eq_spec(&self, o: &Transcript) -> bool {
        self.same_as(o)
    }
}

/// Collects the fields of a transcript one at a time; [`TranscriptBuilder::build`]
/// checks that the name, chromosome and gene were given.
#[derive(Debug)]
pub struct TranscriptBuilder {
    bin: Option<u16>,
    name: Option<String>,
    chrom: Option<String>,
    strand: Strand,
    cds_start_stat: CdsStat,
    cds_end_stat: CdsStat,
    gene_symbol: Option<String>,
}

impl TranscriptBuilder {
    pub closed spec fn spec_bin(&self) -> Option<u16> {
        self.bin
    }

    pub closed spec fn spec_name(&self) -> Option<Seq<char>> {
        match self.name {
            Some(n) => Some(n@),
            None => None,
        }
    }

    pub closed spec fn spec_chrom(&self) -> Option<Seq<char>> {
        match self.chrom {
            Some(n) => Some(n@),
            None => None,
        }
    }

    pub closed spec fn spec_gene(&self) -> Option<Seq<char>> {
        match self.gene_symbol {
            Some(n) => Some(n@),
            None => None,
        }
    }

    pub closed spec fn spec_strand(&self) -> Strand {
        self.strand
    }

    pub closed spec fn spec_cds_start_stat(&self) -> CdsStat {
        self.cds_start_stat
    }

    pub closed spec fn spec_cds_end_stat(&self) -> CdsStat {
        self.cds_end_stat
    }

    /// Everything but the named field is as in `o`.
    pub open spec fn same_but(&self, o: &TranscriptBuilder, field: int) -> bool {
        &&& (field != 0 ==> self.spec_bin() == o.spec_bin())
        &&& (field != 1 ==> self.spec_name() == o.spec_name())
        &&& (field != 2 ==> self.spec_chrom() == o.spec_chrom())
        &&& (field != 3 ==> self.spec_gene() == o.spec_gene())
        &&& (field != 4 ==> self.spec_strand() == o.spec_strand())
        &&& (field != 5 ==> self.spec_cds_start_stat() == o.spec_cds_start_stat())
        &&& (field != 6 ==> self.spec_cds_end_stat() == o.spec_cds_end_stat())
    }

    /// A builder with no name, chromosome or gene, an unknown strand and no
    /// CDS status.
    pub fn new() -> (r: TranscriptBuilder)
        ensures
            r.spec_bin() == None::<u16>,
            r.spec_name() == None::<Seq<char>>,
            r.spec_chrom() == None::<Seq<char>>,
            r.spec_gene() == None::<Seq<char>>,
            r.spec_strand() == Strand::Unknown,
            r.spec_cds_start_stat() == CdsStat::NoStat,
            r.spec_cds_end_stat() == CdsStat::NoStat,
    {
        TranscriptBuilder {
            bin: None,
            name: None,
            chrom: None,
            strand: Strand::Unknown,
            cds_start_stat: CdsStat::NoStat,
            cds_end_stat: CdsStat::NoStat,
            gene_symbol: None,
        }
    }

    pub fn bin(self, bin: Option<u16>) -> (r: TranscriptBuilder)
        ensures
            r.spec_bin() == bin,
            r.same_but(&self, 0),
    {
        TranscriptBuilder { bin, ..self }
    }

    pub fn name(self, name: &str) -> (r: TranscriptBuilder)
        ensures
            r.spec_name() == Some(name@),
            r.same_but(&self, 1),
    {
        TranscriptBuilder { name: Some(owned(name)), ..self }
    }

    pub fn chrom(self, chrom: &str) -> (r: TranscriptBuilder)
        ensures
            r.spec_chrom() == Some(chrom@),
            r.same_but(&self, 2),
    {
        TranscriptBuilder { chrom: Some(owned(chrom)), ..self }
    }

    pub fn gene(self, gene_symbol: &str) -> (r: TranscriptBuilder)
        ensures
            r.spec_gene() == Some(gene_symbol@),
            r.same_but(&self, 3),
    {
        TranscriptBuilder { gene_symbol: Some(owned(gene_symbol)), ..self }
    }

    pub fn strand(self, strand: Strand) -> (r: TranscriptBuilder)
        ensures
            r.spec_strand() == strand,
            r.same_but(&self, 4),
    {
        TranscriptBuilder { strand, ..self }
    }

    pub fn cds_start_stat(self, cds_start_stat: CdsStat) -> (r: TranscriptBuilder)
        ensures
            r.spec_cds_start_stat() == cds_start_stat,
            r.same_but(&self, 5),
    {
        TranscriptBuilder { cds_start_stat, ..self }
    }

    pub fn cds_end_stat(self, cds_end_stat: CdsStat) -> (r: TranscriptBuilder)
        ensures
            r.spec_cds_end_stat() == cds_end_stat,
            r.same_but(&self, 6),
    {
        TranscriptBuilder { cds_end_stat, ..self }
    }

    /// Sets the status of the start codon's end: the left end on the plus
    /// strand, the right end on the minus strand. Fails without a strand.
    pub fn cds_start_codon_stat(self, stat: CdsStat) -> (r: Result<
        TranscriptBuilder,
        BuildTranscriptError,
    >)
        ensures
            match self.spec_strand() {
                Strand::Plus => r is Ok && r->Ok_0.spec_cds_start_stat() == stat && r->Ok_0.same_but(
                    &self,
                    5,
                ),
                Strand::Minus => r is Ok && r->Ok_0.spec_cds_end_stat() == stat
                    && r->Ok_0.same_but(&self, 6),
                Strand::Unknown => r is Err && r->Err_0.message@
                    == "Cannot set CDS-Startcodon-Stat without defined strand"@,
            },
    {
        match self.strand {
            Strand::Plus => Ok(self.cds_start_stat(stat)),
            Strand::Minus => Ok(self.cds_end_stat(stat)),
            Strand::Unknown => Err(
                BuildTranscriptError::new("Cannot set CDS-Startcodon-Stat without defined strand"),
            ),
        }
    }

    /// Sets the status of the stop codon's end: the right end on the plus
    /// strand, the left end on the minus strand. Fails without a strand.
    pub fn cds_stop_codon_stat(self, stat: CdsStat) -> (r: Result<
        TranscriptBuilder,
        BuildTranscriptError,
    >)
        ensures
            match self.spec_strand() {
                Strand::Plus => r is Ok && r->Ok_0.spec_cds_end_stat() == stat && r->Ok_0.same_but(
                    &self,
                    6,
                ),
                Strand::Minus => r is Ok && r->Ok_0.spec_cds_start_stat() == stat
                    && r->Ok_0.same_but(&self, 5),
                Strand::Unknown => r is Err && r->Err_0.message@
                    == "Cannot set CDS-Startcodon-Stat without defined strand"@,
            },
    {
        match self.strand {
            Strand::Plus => Ok(self.cds_end_stat(stat)),
            Strand::Minus => Ok(self.cds_start_stat(stat)),
            Strand::Unknown => Err(
                BuildTranscriptError::new("Cannot set CDS-Startcodon-Stat without defined strand"),
            ),
        }
    }

    /// A transcript without exons, or an error naming the first missing
    /// field among name, chromosome and gene.
    pub fn build(&self) -> (r: Result<Transcript, BuildTranscriptError>)
        ensures
            self.spec_name() is None ==> r is Err && r->Err_0.message@ == "No name specified"@,
            self.spec_name() is Some && self.spec_chrom() is None ==> r is Err
                && r->Err_0.message@ == "No chromosome specified"@,
            self.spec_name() is Some && self.spec_chrom() is Some && self.spec_gene() is None
                ==> r is Err && r->Err_0.message@ == "No gene symbol specified"@,
            self.spec_name() is Some && self.spec_chrom() is Some && self.spec_gene() is Some
                ==> r is Ok && {
                let t = r->Ok_0;
                &&& t.spec_name() == self.spec_name().unwrap()
                &&& t.spec_chrom() == self.spec_chrom().unwrap()
                &&& t.spec_gene() == self.spec_gene().unwrap()
                &&& t.spec_bin() == self.spec_bin()
                &&& t.spec_strand() == self.spec_strand()
                &&& t.spec_cds_start_stat() == self.spec_cds_start_stat()
                &&& t.spec_cds_end_stat() == self.spec_cds_end_stat()
                &&& t.spec_exons().len() == 0
            },
    {
        let name = match &self.name {
            Some(x) => x.clone(),
            None => return Err(BuildTranscriptError::new("No name specified")),
        };
        let chrom = match &self.chrom {
            Some(x) => x.clone(),
            None => return Err(BuildTranscriptError::new("No chromosome specified")),
        };
        let gene_symbol = match &self.gene_symbol {
            Some(x) => x.clone(),
            None => return Err(BuildTranscriptError::new("No gene symbol specified")),
        };
        Ok(
            Transcript {
                bin: self.bin,
                name,
                chrom,
                strand: self.strand,
                cds_start_stat: self.cds_start_stat,
                cds_end_stat: self.cds_end_stat,
                exons: Vec::new(),
                gene_symbol,
            },
        )
    }
}

} // verus!
