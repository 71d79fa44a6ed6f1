//! The exon columns of a RefGene line.
use vstd::prelude::*;
use vstd::string::StringSliceAdditionalSpecFns;
use vstd::utf8::*;
use crate::errors::ParseRefGeneError;
use crate::exon::Exon;
use crate::frame::{Frame, invalid_frame_message, refgene_frame};
use crate::gtf::{ExonModel, model, models};
use crate::relations::{exon_cds_overlap, intersect_spec};
use crate::status::{CdsStat, Strand, cds_stat_of, strand_of};
use crate::text::{append_number, decimal, owned};
use crate::text::{decimal_value, parse_decimal, piece, split_on, split_ranges, strip_both, trim_range};
use crate::transcript::{Transcript, TranscriptBuilder};

verus! {

broadcast use vstd::utf8::encode_utf8_decode_utf8;

/// The column of the number of exons.
pub const EXON_COUNT_COL: usize = 8;

/// The column of the 0-based exon starts.
pub const EXON_STARTS_COL: usize = 9;

/// The column of the exon ends.
pub const EXON_ENDS_COL: usize = 10;

/// The column of the exon frame offsets.
pub const EXON_FRAMES_COL: usize = 15;

/// The column of the 0-based CDS start.
pub const CDS_START_COL: usize = 6;

/// The column of the CDS end.
pub const CDS_END_COL: usize = 7;

/// The column of the bin.
pub const BIN_COL: usize = 0;

/// The column of the transcript name.
pub const TRANSCRIPT_COL: usize = 1;

/// The column of the chromosome.
pub const CHROMOSOME_COL: usize = 2;

/// The column of the strand.
pub const STRAND_COL: usize = 3;

/// The column of the gene symbol.
pub const GENE_SYMBOL_COL: usize = 12;

/// The column of the CDS start status.
pub const CDS_START_STAT_COL: usize = 13;

/// The column of the CDS end status.
pub const CDS_END_STAT_COL: usize = 14;

/// The number of columns of a RefGene line.
pub const N_REFGENE_COLUMNS: usize = 16;

/// `b` without its trailing commas.
pub open spec fn trim_commas(b: Seq<u8>) -> Seq<u8>
    decreases b.len(),
{
    if b.len() > 0 && b.last() == 0x2c {
        trim_commas(b.drop_last())
    } else {
        b
    }
}

/// The items of a comma-separated list, trailing commas ignored.
pub open spec fn list_items(b: Seq<u8>) -> Seq<Seq<u8>> {
    split_on(trim_commas(b), 0x2c)
}

/// The message of a column that holds no number.
pub open spec fn not_a_number() -> Seq<char> {
    "Unable to parse an integer"@
}

/// Exon `i` of the lists of starts (0-based), ends and RefGene frames,
/// with the coding part that the CDS `cds` (1-based) gives it.
pub open spec fn refgene_exon(
    starts: Seq<Seq<u8>>,
    ends: Seq<Seq<u8>>,
    frames: Seq<Seq<u8>>,
    cds: Option<(int, int)>,
    i: int,
) -> Result<ExonModel, Seq<char>> {
    if i >= starts.len() {
        Err("Too few exon starts in input"@)
    } else {
        match decimal_value(starts[i], u32::MAX as int) {
            None => Err(not_a_number()),
            Some(s0) => if s0 >= u32::MAX {
                Err("exon start out of range"@)
            } else if i >= ends.len() {
                Err("Too few exon ends in input"@)
            } else {
                match decimal_value(ends[i], u32::MAX as int) {
                    None => Err(not_a_number()),
                    Some(end) => {
                        let start = s0 + 1;
                        let coding = match cds {
                            Some((a, b)) => if start <= b && end >= a {
                                Some((if start >= a { start } else { a }, if end <= b { end } else { b }))
                            } else {
                                None
                            },
                            None => None,
                        };
                        if i >= frames.len() as u64 {
                            Err("Too few exon Frame offsets"@)
                        } else {
                            match refgene_frame(decode_utf8(frames[i])) {
                                None => Err(invalid_frame_message(decode_utf8(frames[i]))),
                                Some(f) => Ok(
                                    (
                                        start as u32,
                                        end as u32,
                                        match coding {
                                            Some(c) => Some(c.0 as u32),
                                            None => None,
                                        },
                                        match coding {
                                            Some(c) => Some(c.1 as u32),
                                            None => None,
                                        },
                                        f,
                                    ),
                                ),
                            }
                        }
                    },
                }
            },
        }
    }
}

/// The first `n` exons, or the first error among them.
pub open spec fn refgene_exons(
    starts: Seq<Seq<u8>>,
    ends: Seq<Seq<u8>>,
    frames: Seq<Seq<u8>>,
    cds: Option<(int, int)>,
    n: int,
) -> Result<Seq<ExonModel>, Seq<char>>
    decreases n,
{
    if n <= 0 {
        Ok(seq![])
    } else {
        match refgene_exons(starts, ends, frames, cds, n - 1) {
            Err(m) => Err(m),
            Ok(es) => match refgene_exon(starts, ends, frames, cds, n - 1) {
                Err(m) => Err(m),
                Ok(e) => Ok(es.push(e)),
            },
        }
    }
}

/// The CDS of a line, 1-based: both bounds must be numbers.
pub open spec fn refgene_cds(cols: Seq<Seq<u8>>) -> Option<(int, int)> {
    match (
        decimal_value(cols[CDS_START_COL as int], u32::MAX as int),
        decimal_value(cols[CDS_END_COL as int], u32::MAX as int),
    ) {
        (Some(a), Some(b)) => Some((a + 1, b)),
        _ => None,
    }
}

/// The exons of a RefGene line's columns.
pub open spec fn refgene_line_exons(cols: Seq<Seq<u8>>) -> Result<Seq<ExonModel>, Seq<char>> {
    if cols.len() != N_REFGENE_COLUMNS {
        Err("Invalid number of columns in line"@)
    } else {
        match decimal_value(cols[EXON_COUNT_COL as int], u64::MAX as int) {
            None => Err(not_a_number()),
            Some(n) => refgene_exons(
                list_items(cols[EXON_STARTS_COL as int]),
                list_items(cols[EXON_ENDS_COL as int]),
                list_items(cols[EXON_FRAMES_COL as int]),
                refgene_cds(cols),
                n,
            ),
        }
    }
}

/// The bytes of each column.
pub open spec fn col_bytes(cols: Seq<&str>) -> Seq<Seq<u8>> {
    cols.map_values(|c: &str| c.spec_bytes())
}

/// The comma-separated items of a column, trailing commas ignored.
fn items(col: &str) -> (r: (&str, Vec<(usize, usize)>))
    ensures
        r.0.spec_bytes() == trim_commas(col.spec_bytes()),
        r.1@.len() == list_items(col.spec_bytes()).len(),
        forall|k: int|
            0 <= k < r.1@.len() ==> {
                &&& (#[trigger] r.1@[k]).0 <= r.1@[k].1 <= r.0.spec_bytes().len()
                &&& r.0.spec_bytes().subrange(r.1@[k].0 as int, r.1@[k].1 as int) == list_items(
                    col.spec_bytes(),
                )[k]
                &&& (r.1@[k].0 == 0 || r.0.spec_bytes()[r.1@[k].0 - 1] == 0x2c)
                &&& (r.1@[k].1 == r.0.spec_bytes().len() || r.0.spec_bytes()[r.1@[k].1 as int] == 0x2c)
            },
{
    let b = col.as_bytes();
    let mut t = b.len();
    assert(b@.subrange(0, b@.len() as int) =~= b@);
    while t > 0 && b[t - 1] == 0x2c
        invariant
            0 <= t <= b@.len(),
            trim_commas(b@) == trim_commas(b@.subrange(0, t as int)),
            t == b@.len() || b@[t as int] == 0x2c,
        decreases t,
    {
        proof {
            assert(b@.subrange(0, t as int).drop_last() =~= b@.subrange(0, t - 1));
        }
        t = t - 1;
    }
    proof {
        assert(b@.subrange(0, b@.len() as int) =~= b@);
    }
    let trimmed = piece(col, 0, t);
    assert(trimmed.spec_bytes() =~= trim_commas(b@));
    let ranges = split_ranges(trimmed.as_bytes(), 0x2c);
    (trimmed, ranges)
}

/// The exons of a RefGene line, from its columns: exon starts are 0-based
/// and become 1-based; each exon's coding part is its overlap with the
/// CDS; frames are in RefGene's numbering.
pub fn instantiate_exons(cols: &[&str]) -> (r: Result<Vec<Exon>, ParseRefGeneError>)
    ensures
        match refgene_line_exons(col_bytes(cols@)) {
            Ok(es) => r is Ok && models(r->Ok_0@) == es,
            Err(m) => r is Err && r->Err_0.message@ == m,
        },
{
    if cols.len() != N_REFGENE_COLUMNS {
        return Err(ParseRefGeneError::new("Invalid number of columns in line"));
    }
    let count_col = cols[EXON_COUNT_COL].as_bytes();
    let exon_count: u64 = match parse_decimal(count_col, 0, count_col.len(), u64::MAX) {
        Some(n) => n,
        None => {
            proof {
                assert(count_col@.subrange(0, count_col@.len() as int) =~= count_col@);
            }
            return Err(ParseRefGeneError::new("Unable to parse an integer"));
        },
    };
    proof {
        assert(count_col@.subrange(0, count_col@.len() as int) =~= count_col@);
    }
    let (starts_col, starts) = items(cols[EXON_STARTS_COL]);
    let (ends_col, ends) = items(cols[EXON_ENDS_COL]);
    let (frames_col, frames) = items(cols[EXON_FRAMES_COL]);
    let cs_col = cols[CDS_START_COL].as_bytes();
    let ce_col = cols[CDS_END_COL].as_bytes();
    let cds_start = parse_decimal(cs_col, 0, cs_col.len(), u32::MAX as u64);
    let cds_end = parse_decimal(ce_col, 0, ce_col.len(), u32::MAX as u64);
    proof {
        assert(cs_col@.subrange(0, cs_col@.len() as int) =~= cs_col@);
        assert(ce_col@.subrange(0, ce_col@.len() as int) =~= ce_col@);
    }
    let ghost sl = list_items(cols@[EXON_STARTS_COL as int].spec_bytes());
    let ghost el = list_items(cols@[EXON_ENDS_COL as int].spec_bytes());
    let ghost fl = list_items(cols@[EXON_FRAMES_COL as int].spec_bytes());
    let ghost cds = refgene_cds(col_bytes(cols@));
    let mut exons: Vec<Exon> = Vec::new();
    let mut i: u64 = 0;
    proof {
        assert(models(exons@) =~= Seq::<ExonModel>::empty());
        assert(cols@[EXON_COUNT_COL as int].spec_bytes() == count_col@);
        assert(cols@[CDS_START_COL as int].spec_bytes() == cs_col@);
        assert(cols@[CDS_END_COL as int].spec_bytes() == ce_col@);
        assert(decimal_value(count_col@, u64::MAX as int) == Some(exon_count as int));
    }
    while i < exon_count
        invariant
            0 <= i <= exon_count,
            cols@.len() == N_REFGENE_COLUMNS,
            refgene_line_exons(col_bytes(cols@)) == refgene_exons(sl, el, fl, cds, exon_count as int),
            starts@.len() == sl.len(),
            ends@.len() == el.len(),
            frames@.len() == fl.len(),
            forall|k: int|
                0 <= k < starts@.len() ==> {
                    &&& (#[trigger] starts@[k]).0 <= starts@[k].1 <= starts_col.spec_bytes().len()
                    &&& starts_col.spec_bytes().subrange(starts@[k].0 as int, starts@[k].1 as int)
                        == sl[k]
                },
            forall|k: int|
                0 <= k < ends@.len() ==> {
                    &&& (#[trigger] ends@[k]).0 <= ends@[k].1 <= ends_col.spec_bytes().len()
                    &&& ends_col.spec_bytes().subrange(ends@[k].0 as int, ends@[k].1 as int) == el[k]
                },
            forall|k: int|
                0 <= k < frames@.len() ==> {
                    &&& (#[trigger] frames@[k]).0 <= frames@[k].1 <= frames_col.spec_bytes().len()
                    &&& frames_col.spec_bytes().subrange(frames@[k].0 as int, frames@[k].1 as int)
                        == fl[k]
                    &&& (frames@[k].0 == 0 || frames_col.spec_bytes()[frames@[k].0 - 1] == 0x2c)
                    &&& (frames@[k].1 == frames_col.spec_bytes().len() || frames_col.spec_bytes()[frames@[k].1 as int] == 0x2c)
                },
            cds == (match (cds_start, cds_end) {
                (Some(a), Some(b)) => Some((a as int + 1, b as int)),
                _ => None::<(int, int)>,
            }),
            cds_start is Some ==> cds_start->0 <= u32::MAX,
            cds_end is Some ==> cds_end->0 <= u32::MAX,
            refgene_exons(sl, el, fl, cds, i as int) == Ok::<Seq<ExonModel>, Seq<char>>(models(exons@)),
        decreases exon_count - i,
    {
        let ghost e_spec = refgene_exon(sl, el, fl, cds, i as int);
        proof {
            if i < starts@.len() {
                assert(starts_col.spec_bytes().subrange(starts@[i as int].0 as int, starts@[i as int].1 as int) == sl[i as int]);
            }
            if i < ends@.len() {
                assert(ends_col.spec_bytes().subrange(ends@[i as int].0 as int, ends@[i as int].1 as int) == el[i as int]);
            }
        }
        if i >= starts.len() as u64 {
            proof { lemma_exons_fail(sl, el, fl, cds, i as int, exon_count as int); }
            return Err(ParseRefGeneError::new("Too few exon starts in input"));
        }
        let start0 = match parse_decimal(starts_col.as_bytes(), starts[i as usize].0, starts[i as usize].1, u32::MAX as u64) {
            Some(v) => {
                proof {
                    assert(decimal_value(sl[i as int], u32::MAX as int) == Some(v as int));
                    assert(v <= u32::MAX);
                }
                v as u32
            },
            None => {
                proof { lemma_exons_fail(sl, el, fl, cds, i as int, exon_count as int); }
                return Err(ParseRefGeneError::new("Unable to parse an integer"));
            },
        };
        if start0 == u32::MAX {
            proof { lemma_exons_fail(sl, el, fl, cds, i as int, exon_count as int); }
            return Err(ParseRefGeneError::new("exon start out of range"));
        }
        let start = start0 + 1;
        if i >= ends.len() as u64 {
            proof { lemma_exons_fail(sl, el, fl, cds, i as int, exon_count as int); }
            return Err(ParseRefGeneError::new("Too few exon ends in input"));
        }
        let end = match parse_decimal(ends_col.as_bytes(), ends[i as usize].0, ends[i as usize].1, u32::MAX as u64) {
            Some(v) => {
                proof {
                    assert(decimal_value(el[i as int], u32::MAX as int) == Some(v as int));
                }
                v as u32
            },
            None => {
                proof { lemma_exons_fail(sl, el, fl, cds, i as int, exon_count as int); }
                return Err(ParseRefGeneError::new("Unable to parse an integer"));
            },
        };
        let exon_cds = match (cds_start, cds_end) {
            (Some(a), Some(b)) => if a < u32::MAX as u64 {
                exon_cds_overlap(&start, &end, &(a as u32 + 1), &(b as u32))
            } else {
                (None, None)
            },
            _ => (None, None),
        };
        if i >= frames.len() as u64 {
            proof { lemma_exons_fail(sl, el, fl, cds, i as int, exon_count as int); }
            return Err(ParseRefGeneError::new("Too few exon Frame offsets"));
        }
        let token = piece(frames_col, frames[i as usize].0, frames[i as usize].1);
        proof {
            assert(token@ == decode_utf8(fl[i as int]));
        }
        let frame = match Frame::from_refgene(token) {
            Ok(f) => f,
            Err(message) => {
                proof { lemma_exons_fail(sl, el, fl, cds, i as int, exon_count as int); }
                return Err(ParseRefGeneError { message });
            },
        };
        let exon = Exon::new(start, end, exon_cds.0, exon_cds.1, frame);
        proof {
            assert(e_spec == Ok::<ExonModel, Seq<char>>(model(exon)));
            assert(models(exons@.push(exon)) =~= models(exons@).push(model(exon)));
        }
        exons.push(exon);
        i = i + 1;
    }
    Ok(exons)
}

proof fn lemma_exons_fail(
    starts: Seq<Seq<u8>>,
    ends: Seq<Seq<u8>>,
    frames: Seq<Seq<u8>>,
    cds: Option<(int, int)>,
    i: int,
    n: int,
)
    requires
        0 <= i < n,
        refgene_exons(starts, ends, frames, cds, i) is Ok,
        refgene_exon(starts, ends, frames, cds, i) is Err,
    ensures
        refgene_exons(starts, ends, frames, cds, n) == Err::<Seq<ExonModel>, Seq<char>>(
            refgene_exon(starts, ends, frames, cds, i)->Err_0,
        ),
    decreases n - i,
{
    if n > i + 1 {
        lemma_exons_fail(starts, ends, frames, cds, i, n - 1);
    }
}

/// A RefGene line, as the bytes of its columns, makes a transcript: it has
/// sixteen columns, a valid strand, valid exon columns and a valid CDS
/// status at both ends.
pub open spec fn refgene_ok(cols: Seq<Seq<u8>>) -> bool {
    &&& cols.len() == N_REFGENE_COLUMNS
    &&& strand_of(decode_utf8(cols[STRAND_COL as int])) is Some
    &&& refgene_line_exons(cols) is Ok
    &&& cds_stat_of(decode_utf8(cols[CDS_START_STAT_COL as int])) is Some
    &&& cds_stat_of(decode_utf8(cols[CDS_END_STAT_COL as int])) is Some
}

/// `t` is the transcript of the RefGene columns `cols`: bin (if it is a
/// number), name, chromosome, strand, gene, CDS status at both ends and
/// the exons.
pub open spec fn refgene_transcript(cols: Seq<Seq<u8>>, t: Transcript) -> bool {
    &&& t.spec_name() == decode_utf8(cols[TRANSCRIPT_COL as int])
    &&& t.spec_chrom() == decode_utf8(cols[CHROMOSOME_COL as int])
    &&& t.spec_gene() == decode_utf8(cols[GENE_SYMBOL_COL as int])
    &&& Some(t.spec_strand()) == strand_of(decode_utf8(cols[STRAND_COL as int]))
    &&& Some(t.spec_cds_start_stat()) == cds_stat_of(decode_utf8(cols[CDS_START_STAT_COL as int]))
    &&& Some(t.spec_cds_end_stat()) == cds_stat_of(decode_utf8(cols[CDS_END_STAT_COL as int]))
    &&& Ok::<Seq<ExonModel>, Seq<char>>(models(t.spec_exons())) == refgene_line_exons(cols)
    &&& t.spec_bin() == match decimal_value(cols[BIN_COL as int], u16::MAX as int) {
        Some(b) => Some(b as u16),
        None => None::<u16>,
    }
}

impl Transcript {
    /// The transcript of a RefGene line, from its columns: bin (if it is a
    /// number), name, chromosome, strand, gene, CDS status at both ends and
    /// the exons. Fails on a wrong number of columns, an invalid strand,
    /// malformed exon columns, or an invalid CDS status, in that order.
    pub fn try_from_columns(cols: &[&str]) -> (r: Result<Transcript, ParseRefGeneError>)
        ensures
            r is Ok <==> refgene_ok(col_bytes(cols@)),
            r is Ok ==> refgene_transcript(col_bytes(cols@), r->Ok_0),
    {
        if cols.len() != N_REFGENE_COLUMNS {
            return Err(ParseRefGeneError::new("Invalid number of columns in line"));
        }
        let bin_col = cols[BIN_COL].as_bytes();
        proof {
            assert(bin_col@.subrange(0, bin_col@.len() as int) =~= bin_col@);
        }
        let bin = match parse_decimal(bin_col, 0, bin_col.len(), u16::MAX as u64) {
            Some(b) => Some(b as u16),
            None => None,
        };
        let strand = match Strand::from_str(cols[STRAND_COL]) {
            Ok(x) => x,
            Err(message) => return Err(ParseRefGeneError { message }),
        };
        let mut exons = instantiate_exons(cols)?;
        let cds_start_stat = match CdsStat::from_str(cols[CDS_START_STAT_COL]) {
            Ok(x) => x,
            Err(message) => return Err(ParseRefGeneError { message }),
        };
        let cds_end_stat = match CdsStat::from_str(cols[CDS_END_STAT_COL]) {
            Ok(x) => x,
            Err(message) => return Err(ParseRefGeneError { message }),
        };
        let builder = TranscriptBuilder::new().bin(bin).name(cols[TRANSCRIPT_COL]).chrom(
            cols[CHROMOSOME_COL],
        ).strand(strand).gene(cols[GENE_SYMBOL_COL]).cds_start_stat(cds_start_stat).cds_end_stat(
            cds_end_stat,
        );
        match builder.build() {
            Ok(t) => {
                let mut t = t;
                let ghost ex = exons@;
                t.append_exons(&mut exons);
                assert(t.spec_exons() =~= ex);
                Ok(t)
            },
            Err(e) => Err(ParseRefGeneError { message: e.message }),
        }
    }
}

/// The tab-separated columns of a line, surrounding whitespace removed.
pub open spec fn line_columns(b: Seq<u8>) -> Seq<Seq<u8>> {
    split_on(strip_both(b, true, 0), 0x09)
}

/// Splits a line into its tab-separated columns, after removing the
/// whitespace around it.
pub fn split_columns(line: &str) -> (r: Vec<&str>)
    ensures
        r@.len() == line_columns(line.spec_bytes()).len(),
        forall|k: int| 0 <= k < r@.len() ==> (#[trigger] r@[k]).spec_bytes() == line_columns(line.spec_bytes())[k],
{
    let b = line.as_bytes();
    let (a, e) = trim_range(b, 0, b.len(), true, 0);
    proof {
        assert(b@.subrange(0, b@.len() as int) =~= b@);
    }
    let body = piece(line, a, e);
    let bb = body.as_bytes();
    let ranges = split_ranges(bb, 0x09);
    let mut cols: Vec<&str> = Vec::new();
    let mut k: usize = 0;
    while k < ranges.len()
        invariant
            0 <= k <= ranges@.len(),
            bb@ == body.spec_bytes(),
            bb@ == strip_both(line.spec_bytes(), true, 0),
            ranges@.len() == split_on(bb@, 0x09).len(),
            forall|j: int|
                0 <= j < ranges@.len() ==> {
                    &&& (#[trigger] ranges@[j]).0 <= ranges@[j].1 <= bb@.len()
                    &&& bb@.subrange(ranges@[j].0 as int, ranges@[j].1 as int) == split_on(bb@, 0x09)[j]
                    &&& (ranges@[j].0 == 0 || bb@[ranges@[j].0 - 1] == 0x09)
                    &&& (ranges@[j].1 == bb@.len() || bb@[ranges@[j].1 as int] == 0x09)
                },
            cols@.len() == k,
            forall|j: int| 0 <= j < k ==> (#[trigger] cols@[j]).spec_bytes() == split_on(bb@, 0x09)[j],
        decreases ranges@.len() - k,
    {
        let (x, y) = ranges[k];
        cols.push(piece(body, x, y));
        k = k + 1;
    }
    cols
}

/// A line that starts with `#` holds a comment.
pub fn is_comment(line: &str) -> (r: bool)
    ensures
        r == (line.spec_bytes().len() > 0 && line.spec_bytes()[0] == 0x23),
{
    let b = line.as_bytes();
    b.len() > 0 && b[0] == 0x23
}

impl Transcript {
    /// The transcript of a RefGene line (see [`Transcript::try_from_columns`]).
    pub fn from_refgene_line(line: &str) -> (r: Result<Transcript, ParseRefGeneError>)
        ensures
            r is Ok <==> refgene_ok(line_columns(line.spec_bytes())),
            r is Ok ==> refgene_transcript(line_columns(line.spec_bytes()), r->Ok_0),
    {
        let cols = split_columns(line);
        assert(col_bytes(cols@) =~= line_columns(line.spec_bytes()));
        Transcript::try_from_columns(cols.as_slice())
    }

    /// The transcript of a GenePredExt line: a RefGene line without the bin
    /// column, read as a RefGene line with bin 0.
    pub fn from_genepredext_line(line: &str) -> (r: Result<Transcript, ParseRefGeneError>)
        ensures
            r is Ok <==> refgene_ok(seq!["0".spec_bytes()] + line_columns(line.spec_bytes())),
            r is Ok ==> refgene_transcript(seq!["0".spec_bytes()] + line_columns(line.spec_bytes()), r->Ok_0),
    {
        let mut cols = split_columns(line);
        let ghost before = cols@;
        cols.insert(0, "0");
        assert(col_bytes(cols@) =~= seq!["0".spec_bytes()] + line_columns(line.spec_bytes()));
        Transcript::try_from_columns(cols.as_slice())
    }
}

/// `starts` true: each exon's start minus one (0-based), else each end;
/// each followed by a comma.
pub open spec fn bounds_list(exons: Seq<Exon>, n: int, starts: bool) -> Seq<char>
    decreases n,
{
    if n <= 0 || n > exons.len() {
        seq![]
    } else {
        bounds_list(exons, n - 1, starts) + decimal(
            (if starts {
                exons[n - 1].spec_start() - 1
            } else {
                exons[n - 1].spec_end() as int
            }) as nat,
        ) + ","@
    }
}

/// Each exon's frame in RefGene's numbering, each followed by a comma.
pub open spec fn frames_list(exons: Seq<Exon>, n: int) -> Seq<char>
    decreases n,
{
    if n <= 0 || n > exons.len() {
        seq![]
    } else {
        frames_list(exons, n - 1) + crate::frame::refgene_token(exons[n - 1].spec_frame()) + ","@
    }
}

/// Exon starts and CDS start are 1-based positions.
pub open spec fn one_based(t: &Transcript) -> bool {
    &&& forall|k: int| 0 <= k < t.spec_exons().len() ==> (#[trigger] t.spec_exons()[k]).spec_start() >= 1
    &&& (t.spec_cds_start() matches Some(c) ==> c >= 1)
}

/// The sixteen RefGene columns of a transcript: starts become 0-based, a
/// transcript without CDS gives its end as CDS start and end, a missing
/// bin is 0, the score is 0.
pub open spec fn refgene_cols(t: &Transcript) -> Seq<Seq<char>> {
    let ex = t.spec_exons();
    let n = ex.len() as int;
    let tx_end = decimal(ex.last().spec_end() as nat);
    seq![
        decimal(
            match t.spec_bin() {
                Some(b) => b as nat,
                None => 0,
            },
        ),
        t.spec_name(),
        t.spec_chrom(),
        crate::status::strand_token(t.spec_strand()),
        decimal((ex[0].spec_start() - 1) as nat),
        tx_end,
        match t.spec_cds_start() {
            Some(c) => decimal((c - 1) as nat),
            None => tx_end,
        },
        match t.spec_cds_end() {
            Some(c) => decimal(c as nat),
            None => tx_end,
        },
        decimal(n as nat),
        bounds_list(ex, n, true),
        bounds_list(ex, n, false),
        "0"@,
        t.spec_gene(),
        crate::status::cds_stat_token(t.spec_cds_start_stat()),
        crate::status::cds_stat_token(t.spec_cds_end_stat()),
        frames_list(ex, n),
    ]
}

/// The columns `cols[a..e]` joined by tabs.
pub open spec fn joined_cols(cols: Seq<Seq<char>>, a: int, e: int) -> Seq<char>
    decreases e - a,
{
    if e <= a {
        seq![]
    } else if e == a + 1 {
        cols[a]
    } else {
        joined_cols(cols, a, e - 1) + "\t"@ + cols[e - 1]
    }
}

/// The RefGene columns of a transcript (see [`refgene_cols`]).
pub fn refgene_columns(t: &Transcript) -> (r: Vec<String>)
    requires
        t.spec_exons().len() > 0,
        one_based(t),
    ensures
        r@.len() == 16,
        forall|k: int| 0 <= k < 16 ==> (#[trigger] r@[k])@ == refgene_cols(t)[k],
{
    let exons = t.exons();
    let bin: u64 = match t.bin() {
        Some(b) => *b as u64,
        None => 0,
    };
    proof {
        reveal_strlit("");
    }
    let mut cols: Vec<String> = Vec::new();
    cols.push(append_number(owned(""), bin));
    cols.push(owned(t.name()));
    cols.push(owned(t.chrom()));
    cols.push(t.strand().to_string());
    assert(exons@[0].spec_start() >= 1);
    cols.push(append_number(owned(""), (t.tx_start() - 1) as u64));
    cols.push(append_number(owned(""), t.tx_end() as u64));
    cols.push(
        match t.cds_start() {
            Some(c) => append_number(owned(""), (c - 1) as u64),
            None => append_number(owned(""), t.tx_end() as u64),
        },
    );
    cols.push(
        match t.cds_end() {
            Some(c) => append_number(owned(""), c as u64),
            None => append_number(owned(""), t.tx_end() as u64),
        },
    );
    cols.push(append_number(owned(""), exons.len() as u64));
    let mut s = owned("");
    let mut i: usize = 0;
    while i < exons.len()
        invariant
            0 <= i <= exons@.len(),
            exons@ == t.spec_exons(),
            one_based(t),
            s@ == ""@ + bounds_list(exons@, i as int, true),
        decreases exons@.len() - i,
    {
        assert(exons@[i as int].spec_start() >= 1);
        s = append_number(s, (exons[i].start() - 1) as u64).concat(",");
        i = i + 1;
    }
    cols.push(s);
    let mut s = owned("");
    let mut i: usize = 0;
    while i < exons.len()
        invariant
            0 <= i <= exons@.len(),
            exons@ == t.spec_exons(),
            s@ == ""@ + bounds_list(exons@, i as int, false),
        decreases exons@.len() - i,
    {
        s = append_number(s, exons[i].end() as u64).concat(",");
        i = i + 1;
    }
    cols.push(s);
    cols.push(owned("0"));
    cols.push(owned(t.gene()));
    cols.push(t.cds_start_stat().to_string());
    cols.push(t.cds_end_stat().to_string());
    let mut s = owned("");
    let mut i: usize = 0;
    while i < exons.len()
        invariant
            0 <= i <= exons@.len(),
            exons@ == t.spec_exons(),
            s@ == ""@ + frames_list(exons@, i as int),
        decreases exons@.len() - i,
    {
        s = s.concat(exons[i].frame_offset().to_refgene().as_str()).concat(",");
        i = i + 1;
    }
    cols.push(s);
    proof {
        assert(""@ + bounds_list(exons@, exons@.len() as int, true) =~= bounds_list(exons@, exons@.len() as int, true));
        assert(""@ + bounds_list(exons@, exons@.len() as int, false) =~= bounds_list(exons@, exons@.len() as int, false));
        assert(""@ + frames_list(exons@, exons@.len() as int) =~= frames_list(exons@, exons@.len() as int));
        assert forall|k: int| 0 <= k < 16 implies (#[trigger] cols@[k])@ == refgene_cols(t)[k] by {
            assert(""@ + decimal(bin as nat) =~= decimal(bin as nat));
            assert(""@ + decimal((exons@[0].spec_start() - 1) as nat) =~= decimal((exons@[0].spec_start() - 1) as nat));
            assert(""@ + decimal(exons@.last().spec_end() as nat) =~= decimal(exons@.last().spec_end() as nat));
            assert(""@ + decimal(exons@.len() as nat) =~= decimal(exons@.len() as nat));
            if let Some(c) = t.spec_cds_start() {
                assert(""@ + decimal((c - 1) as nat) =~= decimal((c - 1) as nat));
            }
            if let Some(c) = t.spec_cds_end() {
                assert(""@ + decimal(c as nat) =~= decimal(c as nat));
            }
        }
    }
    cols
}

/// The columns `cols[a..e]` joined by tabs.
fn join_columns(cols: &Vec<String>, a: usize, e: usize) -> (r: String)
    requires
        a < e <= cols@.len(),
    ensures
        r@ == joined_cols(cols@.map_values(|c: String| c@), a as int, e as int),
{
    let ghost v = cols@.map_values(|c: String| c@);
    let mut s = cols[a].clone();
    let mut i = a + 1;
    while i < e
        invariant
            a < i <= e <= cols@.len(),
            v == cols@.map_values(|c: String| c@),
            s@ == joined_cols(v, a as int, i as int),
        decreases e - i,
    {
        s = s.concat("\t").concat(cols[i].as_str());
        i = i + 1;
    }
    s
}

/// The RefGene line of a transcript: its sixteen columns joined by tabs.
pub fn refgene_line(t: &Transcript) -> (r: String)
    requires
        t.spec_exons().len() > 0,
        one_based(t),
    ensures
        r@ == joined_cols(refgene_cols(t), 0, 16),
{
    let cols = refgene_columns(t);
    proof {
        assert(cols@.map_values(|c: String| c@) =~= refgene_cols(t));
    }
    join_columns(&cols, 0, 16)
}

/// The GenePredExt line of a transcript: the RefGene columns without the
/// bin.
pub fn genepredext_line(t: &Transcript) -> (r: String)
    requires
        t.spec_exons().len() > 0,
        one_based(t),
    ensures
        r@ == joined_cols(refgene_cols(t), 1, 16),
{
    let cols = refgene_columns(t);
    proof {
        assert(cols@.map_values(|c: String| c@) =~= refgene_cols(t));
    }
    join_columns(&cols, 1, 16)
}

/// The GenePred line of a transcript: the RefGene columns from the name to
/// the exon ends.
pub fn genepred_line(t: &Transcript) -> (r: String)
    requires
        t.spec_exons().len() > 0,
        one_based(t),
    ensures
        r@ == joined_cols(refgene_cols(t), 1, 11),
{
    let cols = refgene_columns(t);
    proof {
        assert(cols@.map_values(|c: String| c@) =~= refgene_cols(t));
    }
    join_columns(&cols, 1, 11)
}

/// The lines of a text: the pieces between line feeds, without an empty
/// piece after a final line feed.
pub open spec fn text_lines(b: Seq<u8>) -> Seq<Seq<u8>> {
    let p = split_on(b, 0x0a);
    if p.len() > 0 && p.last().len() == 0 {
        p.drop_last()
    } else {
        p
    }
}

/// A line that starts with `#`.
pub open spec fn comment_line(l: Seq<u8>) -> bool {
    l.len() > 0 && l[0] == 0x23
}

/// The RefGene columns of a line; a GenePredExt line (`ext`) gets a bin
/// column `0` in front.
pub open spec fn line_cols(l: Seq<u8>, ext: bool) -> Seq<Seq<u8>> {
    if ext {
        seq!["0".spec_bytes()] + line_columns(l)
    } else {
        line_columns(l)
    }
}

/// The lines of `ls[..n]` that are not comments, in order.
pub open spec fn data_lines(ls: Seq<Seq<u8>>, n: int) -> Seq<Seq<u8>>
    decreases n,
{
    if n <= 0 || n > ls.len() {
        seq![]
    } else if comment_line(ls[n - 1]) {
        data_lines(ls, n - 1)
    } else {
        data_lines(ls, n - 1).push(ls[n - 1])
    }
}

/// The transcripts of a RefGene text (`ext` false) or a GenePredExt text
/// (`ext` true): one per line that is not a comment, in order. Fails if one
/// of those lines does not make a transcript.
pub fn transcripts_from_text(text: &str, ext: bool) -> (r: Result<Vec<Transcript>, ParseRefGeneError>)
    ensures
        ({
            let ds = data_lines(text_lines(text.spec_bytes()), text_lines(text.spec_bytes()).len() as int);
            &&& (r is Ok <==> (forall|k: int| 0 <= k < ds.len() ==> refgene_ok(line_cols(#[trigger] ds[k], ext))))
            &&& (r is Ok ==> r->Ok_0@.len() == ds.len() && (forall|k: int|
                0 <= k < ds.len() ==> refgene_transcript(line_cols(#[trigger] ds[k], ext), r->Ok_0@[k])))
        }),
{
    let b = text.as_bytes();
    let ranges = split_ranges(b, 0x0a);
    let ghost p = split_on(b@, 0x0a);
    let ghost ls = text_lines(b@);
    let n = if ranges.len() > 0 && ranges[ranges.len() - 1].0 == ranges[ranges.len() - 1].1 {
        ranges.len() - 1
    } else {
        ranges.len()
    };
    proof {
        if ranges@.len() > 0 {
            let j = ranges@.len() - 1;
            assert(b@.subrange(ranges@[j].0 as int, ranges@[j].1 as int) == p[j]);
        }
        assert(ls.len() == n);
        assert forall|k: int| 0 <= k < n implies #[trigger] ls[k] == p[k] by {}
    }
    let mut out: Vec<Transcript> = Vec::new();
    let mut k: usize = 0;
    while k < n
        invariant
            0 <= k <= n <= ranges@.len(),
            n == ls.len(),
            ls == text_lines(text.spec_bytes()),
            b@ == text.spec_bytes(),
            p == split_on(b@, 0x0a),
            ranges@.len() == p.len(),
            forall|j: int| 0 <= j < n ==> #[trigger] ls[j] == p[j],
            forall|j: int|
                0 <= j < ranges@.len() ==> {
                    &&& (#[trigger] ranges@[j]).0 <= ranges@[j].1 <= b@.len()
                    &&& b@.subrange(ranges@[j].0 as int, ranges@[j].1 as int) == p[j]
                    &&& (ranges@[j].0 == 0 || b@[ranges@[j].0 - 1] == 0x0a)
                    &&& (ranges@[j].1 == b@.len() || b@[ranges@[j].1 as int] == 0x0a)
                },
            out@.len() == data_lines(ls, k as int).len(),
            forall|j: int| 0 <= j < out@.len() ==> refgene_ok(line_cols(#[trigger] data_lines(ls, k as int)[j], ext)),
            forall|j: int| 0 <= j < out@.len() ==> refgene_transcript(line_cols(#[trigger] data_lines(ls, k as int)[j], ext), out@[j]),
        decreases n - k,
    {
        let (a, e) = ranges[k];
        let line = piece(text, a, e);
        assert(line.spec_bytes() == ls[k as int]);
        if !is_comment(line) {
            let t = if ext {
                Transcript::from_genepredext_line(line)
            } else {
                Transcript::from_refgene_line(line)
            };
            match t {
                Ok(t) => {
                    out.push(t);
                },
                Err(err) => {
                    proof {
                        let ds = data_lines(ls, k as int + 1);
                        assert(ds[ds.len() - 1] == ls[k as int]);
                        lemma_data_lines_prefix(ls, k as int + 1, ls.len() as int);
                        let all = data_lines(ls, ls.len() as int);
                        assert(all[ds.len() - 1] == ls[k as int]);
                        assert(!refgene_ok(line_cols(all[ds.len() - 1], ext)));
                    }
                    return Err(err);
                },
            }
        }
        k = k + 1;
    }
    proof {
        assert(data_lines(ls, n as int) == data_lines(ls, ls.len() as int));
    }
    Ok(out)
}

pub(crate) proof fn lemma_data_lines_prefix(ls: Seq<Seq<u8>>, k: int, n: int)
    requires
        0 <= k <= n <= ls.len(),
    ensures
        data_lines(ls, k).len() <= data_lines(ls, n).len(),
        forall|j: int| 0 <= j < data_lines(ls, k).len() ==> #[trigger] data_lines(ls, n)[j] == data_lines(ls, k)[j],
    decreases n - k,
{
    if k < n {
        lemma_data_lines_prefix(ls, k, n - 1);
    }
}

} // verus!
