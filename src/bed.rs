//! BED lines: one line per transcript, its exons as blocks.
use vstd::prelude::*;
use crate::exon::Exon;
use crate::refgene::one_based;
use crate::status::{Strand, strand_token};
use crate::text::{append_number, decimal, joined, owned};
use crate::transcript::Transcript;

verus! {

/// One BED line. Positions are 0-based and half-open.
#[derive(Debug)]
pub struct BedLine {
    chrom: String,
    start: u32,
    end: u32,
    name: Option<String>,
    strand: Option<Strand>,
    thick_start: Option<u32>,
    thick_end: Option<u32>,
    item_rgb: Option<String>,
    block_count: Option<usize>,
    block_sizes: Option<Vec<u32>>,
    block_starts: Option<Vec<u32>>,
}

/// The decimal digits of a number, or nothing.
pub open spec fn opt_decimal(n: Option<int>) -> Seq<char> {
    match n {
        Some(x) => decimal(x as nat),
        None => seq![],
    }
}

/// The text of an optional string.
pub open spec fn opt_view(o: Option<String>) -> Option<Seq<char>> {
    match o {
        Some(n) => Some(n@),
        None => None,
    }
}

/// Numbers written in decimal and separated by commas.
pub open spec fn comma_list(s: Seq<u32>) -> Seq<char>
    decreases s.len(),
{
    if s.len() == 0 {
        seq![]
    } else if s.len() == 1 {
        decimal(s[0] as nat)
    } else {
        comma_list(s.drop_last()) + ","@ + decimal(s.last() as nat)
    }
}

/// The exons of a transcript are blocks: each starts at or after the
/// first exon and does not end before it starts.
pub open spec fn blocks_ok(t: &Transcript) -> bool {
    let ex = t.spec_exons();
    &&& ex.len() > 0
    &&& forall|k: int|
        0 <= k < ex.len() ==> ex[0].spec_start() <= (#[trigger] ex[k]).spec_start() <= ex[k].spec_end()
}

fn number_list(v: &Vec<u32>) -> (r: String)
    ensures
        r@ == comma_list(v@),
{
    let mut s = owned("");
    proof {
        reveal_strlit("");
    }
    let mut i: usize = 0;
    while i < v.len()
        invariant
            0 <= i <= v@.len(),
            s@ == comma_list(v@.subrange(0, i as int)),
        decreases v@.len() - i,
    {
        proof {
            assert(v@.subrange(0, i + 1).drop_last() =~= v@.subrange(0, i as int));
        }
        if i > 0 {
            s = s.concat(",");
        }
        s = append_number(s, v[i] as u64);
        i = i + 1;
    }
    assert(v@.subrange(0, v@.len() as int) =~= v@);
    s
}

fn opt_number(n: Option<u32>) -> (r: String)
    ensures
        r@ == opt_decimal(
            match n {
                Some(x) => Some(x as int),
                None => None,
            },
        ),
{
    proof {
        reveal_strlit("");
    }
    match n {
        Some(x) => {
            let r = append_number(owned(""), x as u64);
            assert(r@ =~= decimal(x as nat));
            r
        },
        None => owned(""),
    }
}

impl BedLine {
    pub closed spec fn spec_fields(&self) -> (Seq<char>, u32, u32, Option<u32>, Option<u32>) {
        (self.chrom@, self.start, self.end, self.thick_start, self.thick_end)
    }

    pub closed spec fn spec_name(&self) -> Option<Seq<char>> {
        match self.name {
            Some(n) => Some(n@),
            None => None,
        }
    }

    pub closed spec fn spec_strand(&self) -> Option<Strand> {
        self.strand
    }

    pub closed spec fn spec_item_rgb(&self) -> Option<Seq<char>> {
        match self.item_rgb {
            Some(n) => Some(n@),
            None => None,
        }
    }

    pub closed spec fn spec_block_count(&self) -> Option<usize> {
        self.block_count
    }

    pub closed spec fn spec_blocks(&self) -> (Option<Seq<u32>>, Option<Seq<u32>>) {
        (
            match self.block_sizes {
                Some(v) => Some(v@),
                None => None,
            },
            match self.block_starts {
                Some(v) => Some(v@),
                None => None,
            },
        )
    }

    /// The line of a single exon: its interval and coding part, nothing
    /// else.
    pub fn from_exon(exon: Exon, chrom: &str) -> (r: Self)
        ensures
            r.spec_fields() == (chrom@, exon.spec_start(), exon.spec_end(), exon.spec_cds_start(), exon.spec_cds_end()),
            r.spec_name() is None && r.spec_strand() is None && r.spec_item_rgb() is None,
            r.spec_block_count() is None && r.spec_blocks() == (None::<Seq<u32>>, None::<Seq<u32>>),
    {
        BedLine {
            chrom: owned(chrom),
            start: exon.start(),
            end: exon.end(),
            name: None,
            strand: None,
            thick_start: *exon.cds_start(),
            thick_end: *exon.cds_end(),
            item_rgb: None,
            block_count: None,
            block_sizes: None,
            block_starts: None,
        }
    }

    pub fn name_mut(&mut self) -> (r: &mut Option<String>)
        ensures
            opt_view(*r) == old(self).spec_name(),
            final(self).spec_name() == opt_view(*final(r)),
            final(self).spec_fields() == old(self).spec_fields(),
            final(self).spec_strand() == old(self).spec_strand(),
            final(self).spec_item_rgb() == old(self).spec_item_rgb(),
            final(self).spec_block_count() == old(self).spec_block_count(),
            final(self).spec_blocks() == old(self).spec_blocks(),
    {
        &mut self.name
    }

    /// The line of a transcript: 0-based start, CDS as thick part, name
    /// `gene:name`, and one block per exon, relative to the start.
    pub fn from_transcript(transcript: &Transcript) -> (r: Self)
        requires
            one_based(transcript),
            blocks_ok(transcript),
        ensures
            ({
                let ex = transcript.spec_exons();
                &&& r.spec_fields() == (
                    transcript.spec_chrom(),
                    (ex[0].spec_start() - 1) as u32,
                    ex.last().spec_end(),
                    match transcript.spec_cds_start() {
                        Some(s) => Some((s - 1) as u32),
                        None => None,
                    },
                    transcript.spec_cds_end(),
                )
                &&& r.spec_name() == Some(transcript.spec_gene() + ":"@ + transcript.spec_name())
                &&& r.spec_strand() == Some(transcript.spec_strand())
                &&& r.spec_item_rgb() is None
                &&& r.spec_block_count() == Some(ex.len() as usize)
                &&& r.spec_blocks().0 == Some(ex.map_values(|e: Exon| (e.spec_end() - e.spec_start() + 1) as u32))
                &&& r.spec_blocks().1 == Some(ex.map_values(|e: Exon| (e.spec_start() - ex[0].spec_start()) as u32))
            }),
    {
        let exons = transcript.exons();
        let tx_start = transcript.tx_start();
        let mut sizes: Vec<u32> = Vec::new();
        let mut starts: Vec<u32> = Vec::new();
        let mut i: usize = 0;
        while i < exons.len()
            invariant
                0 <= i <= exons@.len(),
                exons@ == transcript.spec_exons(),
                tx_start == exons@[0].spec_start(),
                blocks_ok(transcript),
                one_based(transcript),
                sizes@ == exons@.subrange(0, i as int).map_values(|e: Exon| (e.spec_end() - e.spec_start() + 1) as u32),
                starts@ == exons@.subrange(0, i as int).map_values(|e: Exon| (e.spec_start() - tx_start) as u32),
            decreases exons@.len() - i,
        {
            let e = &exons[i];
            assert(exons@[i as int].spec_start() >= 1);
            sizes.push(e.len());
            starts.push(e.start() - tx_start);
            proof {
                assert(exons@.subrange(0, i + 1) =~= exons@.subrange(0, i as int).push(exons@[i as int]));
                assert(sizes@ =~= exons@.subrange(0, i + 1).map_values(|e: Exon| (e.spec_end() - e.spec_start() + 1) as u32));
                assert(starts@ =~= exons@.subrange(0, i + 1).map_values(|e: Exon| (e.spec_start() - tx_start) as u32));
            }
            i = i + 1;
        }
        assert(exons@.subrange(0, exons@.len() as int) =~= exons@);
        let name = joined(transcript.gene(), ":").concat(transcript.name());
        BedLine {
            chrom: owned(transcript.chrom()),
            start: tx_start - 1,
            end: transcript.tx_end(),
            name: Some(name),
            strand: Some(transcript.strand()),
            thick_start: match transcript.cds_start() {
                Some(s) => Some(s - 1),
                None => None,
            },
            thick_end: transcript.cds_end(),
            item_rgb: None,
            block_count: Some(exons.len()),
            block_sizes: Some(sizes),
            block_starts: Some(starts),
        }
    }

    /// The tab-separated line; the score column stays empty and a line
    /// without colour gets `212,16,48`.
    pub fn to_string(&self) -> (r: String)
        ensures
            r@ == self.spec_fields().0 + "\t"@ + decimal(self.spec_fields().1 as nat) + "\t"@ + decimal(
                self.spec_fields().2 as nat,
            ) + "\t"@ + self.spec_name().unwrap_or(seq![]) + "\t\t"@ + (match self.spec_strand() {
                Some(s) => strand_token(s),
                None => seq![],
            }) + "\t"@ + opt_decimal(
                match self.spec_fields().3 {
                    Some(x) => Some(x as int),
                    None => None,
                },
            ) + "\t"@ + opt_decimal(
                match self.spec_fields().4 {
                    Some(x) => Some(x as int),
                    None => None,
                },
            ) + "\t"@ + self.spec_item_rgb().unwrap_or("212,16,48"@) + "\t"@ + opt_decimal(
                match self.spec_block_count() {
                    Some(x) => Some(x as int),
                    None => None,
                },
            ) + "\t"@ + (match self.spec_blocks().0 {
                Some(v) => comma_list(v),
                None => seq![],
            }) + "\t"@ + (match self.spec_blocks().1 {
                Some(v) => comma_list(v),
                None => seq![],
            }),
    {
        proof {
            reveal_strlit("");
        }
        let s = self.chrom.clone().concat("\t");
        let s = append_number(s, self.start as u64).concat("\t");
        let s = append_number(s, self.end as u64).concat("\t");
        let s = match &self.name {
            Some(n) => s.concat(n.as_str()),
            None => s,
        };
        let s = s.concat("\t\t");
        let s = match self.strand {
            Some(x) => s.concat(x.to_string().as_str()),
            None => s,
        };
        let s = s.concat("\t").concat(opt_number(self.thick_start).as_str()).concat("\t");
        let s = s.concat(opt_number(self.thick_end).as_str()).concat("\t");
        let s = match &self.item_rgb {
            Some(x) => s.concat(x.as_str()),
            None => s.concat("212,16,48"),
        };
        let s = s.concat("\t");
        let s = match self.block_count {
            Some(x) => append_number(s, x as u64),
            None => s,
        };
        let s = s.concat("\t");
        let s = match &self.block_sizes {
            Some(v) => s.concat(number_list(v).as_str()),
            None => s,
        };
        let s = s.concat("\t");
        let s = match &self.block_starts {
            Some(v) => s.concat(number_list(v).as_str()),
            None => s,
        };
        assert(s@ =~= self.spec_fields().0 + "\t"@ + decimal(self.spec_fields().1 as nat) + "\t"@ + decimal(
                self.spec_fields().2 as nat,
            ) + "\t"@ + self.spec_name().unwrap_or(seq![]) + "\t\t"@ + (match self.spec_strand() {
                Some(s) => strand_token(s),
                None => seq![],
            }) + "\t"@ + opt_decimal(
                match self.spec_fields().3 {
                    Some(x) => Some(x as int),
                    None => None,
                },
            ) + "\t"@ + opt_decimal(
                match self.spec_fields().4 {
                    Some(x) => Some(x as int),
                    None => None,
                },
            ) + "\t"@ + self.spec_item_rgb().unwrap_or("212,16,48"@) + "\t"@ + opt_decimal(
                match self.spec_block_count() {
                    Some(x) => Some(x as int),
                    None => None,
                },
            ) + "\t"@ + (match self.spec_blocks().0 {
                Some(v) => comma_list(v),
                None => seq![],
            }) + "\t"@ + (match self.spec_blocks().1 {
                Some(v) => comma_list(v),
                None => seq![],
            }));
        s
    }
}

} // verus!
