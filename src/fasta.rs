//! Indexed access to a line-wrapped reference sequence: the side index
//! (one line per contig) and the reader that maps positions to bytes.
use vstd::prelude::*;
use vstd::string::StringSliceAdditionalSpecFns;
use vstd::utf8::*;
use crate::errors::FastaError;
use crate::formats::FastaFormat;
use crate::sequence::{Sequence, decode_bytes, reverse_complement_of};
use crate::transcript::{Coordinate, CoordinateVector, Transcript, all_on, cds_paired, cds_spans, exon_spans, spans};
use crate::text::{
    append_number, decimal, decimal_value, joined, owned, parse_decimal, piece, split_on,
    split_ranges, str_eq, with_number,
};

verus! {

broadcast use vstd::utf8::encode_utf8_decode_utf8;

/// Name, total bases, byte offset of the first base, bases per line and
/// bytes per line of one contig.
pub type EntryModel = (Seq<char>, u64, u64, u64, u64);

/// The highest byte offset that any base of the contig can need, plus one.
pub open spec fn entry_bound(bases: u64, start: u64, line_bases: u64, line_bytes: u64) -> int {
    if bases == 0 || line_bases == 0 {
        start as int
    } else {
        start + ((bases - 1) as int / line_bases as int) * line_bytes + line_bases
    }
}

/// An entry whose lines are not empty and whose bytes are addressable.
pub open spec fn entry_ok(bases: u64, start: u64, line_bases: u64, line_bytes: u64) -> bool {
    line_bases > 0 && entry_bound(bases, start, line_bases, line_bytes) <= u64::MAX
}

/// The byte offset of the 1-based position `pos`: the start of its line
/// plus its column within the line.
pub open spec fn offset_at(m: EntryModel, pos: int) -> int {
    m.2 + ((pos - 1) / m.3 as int) * m.4 + (pos - 1) % m.3 as int
}

/// The entry of one index line: exactly five tab-separated fields, the
/// last four unsigned numbers.
pub open spec fn parse_entry(line: Seq<u8>) -> Option<EntryModel> {
    let f = split_on(line, 0x09);
    if f.len() != 5 {
        None
    } else {
        let max = u64::MAX as int;
        match (
            decimal_value(f[1], max),
            decimal_value(f[2], max),
            decimal_value(f[3], max),
            decimal_value(f[4], max),
        ) {
            (Some(b), Some(s), Some(lb), Some(ly)) => if entry_ok(
                b as u64,
                s as u64,
                lb as u64,
                ly as u64,
            ) {
                Some((decode_utf8(f[0]), b as u64, s as u64, lb as u64, ly as u64))
            } else {
                None
            },
            _ => None,
        }
    }
}

/// `b` without one trailing carriage return.
pub open spec fn strip_cr(b: Seq<u8>) -> Seq<u8> {
    if b.len() > 0 && b.last() == 0x0d {
        b.drop_last()
    } else {
        b
    }
}

/// The lines of a text as std's `lines` gives them: split at LF, a CR
/// before an LF removed, and no empty line after a final LF.
pub open spec fn lines_of(c: Seq<u8>) -> Seq<Seq<u8>> {
    let p = split_on(c, 0x0a);
    let body = Seq::new((p.len() - 1) as nat, |k: int| strip_cr(p[k]));
    if p.last().len() == 0 {
        body
    } else {
        body.push(p.last())
    }
}

/// The entries of the lines `l[..n]`, or `None` if one of them is malformed.
pub open spec fn parse_lines(l: Seq<Seq<u8>>, n: int) -> Option<Seq<EntryModel>>
    decreases n,
{
    if n <= 0 || n > l.len() {
        Some(seq![])
    } else {
        match (parse_lines(l, n - 1), parse_entry(l[n - 1])) {
            (Some(es), Some(e)) => Some(es.push(e)),
            _ => None,
        }
    }
}

proof fn lemma_parse_lines_fail(l: Seq<Seq<u8>>, k: int, n: int)
    requires
        1 <= k <= n <= l.len(),
        parse_lines(l, k) is None,
    ensures
        parse_lines(l, n) is None,
    decreases n - k,
{
    if k < n {
        lemma_parse_lines_fail(l, k, n - 1);
    }
}

/// Every entry satisfies [`entry_ok`].
pub open spec fn entries_ok(es: Seq<EntryModel>) -> bool {
    forall|k: int| 0 <= k < es.len() ==> entry_ok((#[trigger] es[k]).1, es[k].2, es[k].3, es[k].4)
}

/// The last entry of the given name: a later index line for a contig
/// replaces an earlier one.
pub open spec fn last_match(es: Seq<EntryModel>, name: Seq<char>) -> Option<EntryModel>
    decreases es.len(),
{
    if es.len() == 0 {
        None
    } else if es.last().0 == name {
        Some(es.last())
    } else {
        last_match(es.drop_last(), name)
    }
}

/// The message of a position past the end of its contig.
pub open spec fn past_end_message(pos: u64, bases: u64) -> Seq<char> {
    "position "@ + decimal(pos as nat) + " is greater than chromome length "@ + decimal(
        bases as nat,
    )
}

/// The result of an offset query on the entries `es`.
pub open spec fn offset_result(es: Seq<EntryModel>, name: Seq<char>, pos: u64) -> Result<
    u64,
    Seq<char>,
> {
    match last_match(es, name) {
        None => Err("index for "@ + name + " does not exist"@),
        Some(m) => if pos > m.1 {
            Err(past_end_message(pos, m.1))
        } else {
            Ok(offset_at(m, pos as int) as u64)
        },
    }
}

/// The index entry of one contig.
#[derive(Debug)]
pub struct ChromosomeIndex {
    name: String,
    bases: u64,
    start: u64,
    line_bases: u64,
    line_bytes: u64,
}

impl ChromosomeIndex {
    #[verifier::type_invariant]
    spec fn inv(&self) -> bool {
        entry_ok(self.bases, self.start, self.line_bases, self.line_bytes)
    }

    pub closed spec fn model(&self) -> EntryModel {
        (self.name@, self.bases, self.start, self.line_bases, self.line_bytes)
    }

    /// Parses one index line: name, bases, start, bases per line and bytes
    /// per line, separated by tabs.
    pub fn new(line: &str) -> (r: Result<Self, FastaError>)
        ensures
            match parse_entry(line.spec_bytes()) {
                Some(m) => r is Ok && r->Ok_0.model() == m,
                None => r is Err,
            },
            split_on(line.spec_bytes(), 0x09).len() != 5 ==> r is Err && r->Err_0.message@
                == "expected 5 columns but received "@ + decimal(
                split_on(line.spec_bytes(), 0x09).len() as nat,
            ),
    {
        let bytes = line.as_bytes();
        let cols = split_ranges(bytes, 0x09);
        if cols.len() != 5 {
            proof {
                reveal_strlit("");
                assert("expected 5 columns but received "@ + decimal(cols@.len() as nat) + ""@
                    =~= "expected 5 columns but received "@ + decimal(cols@.len() as nat));
            }
            return Err(
                FastaError {
                    message: with_number("expected 5 columns but received ", cols.len() as u64, ""),
                },
            );
        }
        let ghost f = split_on(bytes@, 0x09);
        let name = piece(line, cols[0].0, cols[0].1);
        let max = u64::MAX;
        let bases = parse_decimal(bytes, cols[1].0, cols[1].1, max);
        let start = parse_decimal(bytes, cols[2].0, cols[2].1, max);
        let line_bases = parse_decimal(bytes, cols[3].0, cols[3].1, max);
        let line_bytes = parse_decimal(bytes, cols[4].0, cols[4].1, max);
        let (bases, start, line_bases, line_bytes) = match (bases, start, line_bases, line_bytes) {
            (Some(a), Some(b), Some(c), Some(d)) => (a, b, c, d),
            _ => return Err(FastaError::new("invalid number in fasta index line")),
        };
        if line_bases == 0 {
            return Err(FastaError::new("fasta index line with zero bases per line"));
        }
        let lines_before: u128 = (bases as u128 - if bases > 0 { 1 } else { 0 }) / line_bases as u128;
        proof {
            let num = (bases as u128 - if bases > 0 { 1u128 } else { 0u128 }) as int;
            assert(lines_before <= 0xffff_ffff_ffff_ffffu128) by (nonlinear_arith)
                requires
                    lines_before == num / (line_bases as int),
                    0 <= num <= 0xffff_ffff_ffff_ffffu128,
                    line_bases >= 1,
            ;
            assert(lines_before * (line_bytes as u128) <= 0xffff_ffff_ffff_fffe_0000_0000_0000_0001u128) by (nonlinear_arith)
                requires
                    lines_before <= 0xffff_ffff_ffff_ffffu128,
                    line_bytes <= 0xffff_ffff_ffff_ffffu64,
            ;
        }
        let span: u128 = lines_before * (line_bytes as u128);
        let bound: u128 = if bases == 0 {
            start as u128
        } else {
            start as u128 + span + line_bases as u128
        };
        if bound > u64::MAX as u128 {
            return Err(FastaError::new("fasta index line beyond the addressable range"));
        }
        proof {
            assert(name@ == decode_utf8(f[0]));
        }
        Ok(
            ChromosomeIndex {
                name: owned(name),
                bases,
                start,
                line_bases,
                line_bytes,
            },
        )
    }

    pub fn name(&self) -> (r: &str)
        ensures
            r@ == self.model().0,
            entry_ok(self.model().1, self.model().2, self.model().3, self.model().4),
    {
        proof {
            use_type_invariant(self);
        }
        self.name.as_str()
    }

    /// The byte offset of a 1-based position, or an error past the end of
    /// the contig.
    pub fn offset(&self, pos: u64) -> (r: Result<u64, FastaError>)
        requires
            pos >= 1,
        ensures
            pos > self.model().1 ==> r is Err && r->Err_0.message@ == past_end_message(
                pos,
                self.model().1,
            ),
            pos <= self.model().1 ==> r == Ok::<u64, FastaError>(
                offset_at(self.model(), pos as int) as u64,
            ),
            entry_ok(self.model().1, self.model().2, self.model().3, self.model().4),
            pos <= self.model().1 ==> offset_at(self.model(), pos as int) < entry_bound(
                self.model().1,
                self.model().2,
                self.model().3,
                self.model().4,
            ),
            r is Ok ==> r->Ok_0 < u64::MAX,
    {
        proof {
            use_type_invariant(self);
        }
        if pos > self.bases {
            let m = with_number("position ", pos, " is greater than chromome length ");
            return Err(FastaError { message: append_number(m, self.bases) });
        }
        let line_offset = (pos - 1) % self.line_bases;
        let line = (pos - 1) / self.line_bases;
        proof {
            lemma_offset_bound(self.bases, self.start, self.line_bases, self.line_bytes, pos);
        }
        let line_start = line * self.line_bytes;
        Ok(self.start + line_start + line_offset)
    }
}

proof fn lemma_offset_bound(bases: u64, start: u64, lb: u64, ly: u64, pos: u64)
    requires
        1 <= pos <= bases,
        entry_ok(bases, start, lb, ly),
    ensures
        ((pos - 1) as int / (lb as int)) * ly <= ((bases - 1) as int / (lb as int)) * ly,
        ((pos - 1) as int % (lb as int)) <= lb - 1,
        start + ((pos - 1) as int / (lb as int)) * ly + ((pos - 1) as int % (lb as int)) < entry_bound(
            bases,
            start,
            lb,
            ly,
        ),
{
    let a = (pos - 1) as int;
    let b = (bases - 1) as int;
    let l = lb as int;
    assert(a / l <= b / l) by (nonlinear_arith)
        requires
            0 <= a <= b,
            l > 0,
    ;
    assert((a / l) * ly <= (b / l) * ly) by (nonlinear_arith)
        requires
            a / l <= b / l,
            0 <= a / l,
            ly >= 0,
    ;
    assert(a % l <= l - 1) by (nonlinear_arith)
        requires
            l > 0,
            a >= 0,
    ;
}

/// The index of a reference file: one entry per contig.
#[derive(Debug)]
pub struct FastaIndex {
    chromosomes: Vec<ChromosomeIndex>,
}

impl FastaIndex {
    pub closed spec fn entries(&self) -> Seq<EntryModel> {
        self.chromosomes@.map_values(|c: ChromosomeIndex| c.model())
    }

    #[verifier::type_invariant]
    spec fn inv(&self) -> bool {
        entries_ok(self.entries())
    }

    /// Parses the text of an index file, one entry per line; a later line
    /// for a contig replaces an earlier one.
    pub fn new(content: &str) -> (r: Result<Self, FastaError>)
        ensures
            match parse_lines(lines_of(content.spec_bytes()), lines_of(content.spec_bytes()).len() as int) {
                Some(es) => r is Ok && r->Ok_0.entries() == es,
                None => r is Err,
            },
    {
        let bytes = content.as_bytes();
        let ghost ls = lines_of(bytes@);
        let ghost p = split_on(bytes@, 0x0a);
        let parts = split_ranges(bytes, 0x0a);
        let n = parts.len();
        proof {
            crate::text::lemma_split_on_nonempty(bytes@, 0x0a);
        }
        let last_empty = parts[n - 1].0 == parts[n - 1].1;
        let count = if last_empty { n - 1 } else { n };
        proof {
            assert(p.last() =~= bytes@.subrange(parts@[n - 1].0 as int, parts@[n - 1].1 as int));
            assert(ls.len() == count);
        }
        let mut chromosomes: Vec<ChromosomeIndex> = Vec::new();
        let mut k: usize = 0;
        while k < count
            invariant
                0 <= k <= count,
                count <= n,
                n == parts@.len(),
                n == p.len(),
                ls == lines_of(bytes@),
                p == split_on(bytes@, 0x0a),
                ls.len() == count,
                count == n - 1 || count == n,
                bytes@ == content.spec_bytes(),
                forall|j: int|
                    0 <= j < parts@.len() ==> {
                        &&& (#[trigger] parts@[j]).0 <= parts@[j].1 <= bytes@.len()
                        &&& bytes@.subrange(parts@[j].0 as int, parts@[j].1 as int) == p[j]
                        &&& (parts@[j].0 == 0 || bytes@[parts@[j].0 - 1] == 0x0a)
                        &&& (parts@[j].1 == bytes@.len() || bytes@[parts@[j].1 as int] == 0x0a)
                    },
                parse_lines(ls, k as int) == Some(
                    chromosomes@.map_values(|c: ChromosomeIndex| c.model()),
                ),
                entries_ok(chromosomes@.map_values(|c: ChromosomeIndex| c.model())),
            decreases count - k,
        {
            let (a, e0) = parts[k];
            let e = if k + 1 < n && e0 > a && bytes[e0 - 1] == 0x0d {
                e0 - 1
            } else {
                e0
            };
            proof {
                if k + 1 < n {
                    assert(ls[k as int] == strip_cr(p[k as int]));
                    if e0 > a && bytes@[e0 - 1] == 0x0d {
                        assert(p[k as int].last() == bytes@[e0 - 1]);
                        assert(strip_cr(p[k as int]) =~= bytes@.subrange(a as int, e as int));
                    } else {
                        assert(strip_cr(p[k as int]) =~= bytes@.subrange(a as int, e as int));
                    }
                } else {
                    assert(ls[k as int] == p.last());
                }
                assert(ls[k as int] =~= bytes@.subrange(a as int, e as int));
            }
            let line = piece(content, a, e);
            let entry = match ChromosomeIndex::new(line) {
                Ok(x) => x,
                Err(err) => {
                    proof {
                        lemma_parse_lines_fail(ls, k as int + 1, count as int);
                    }
                    return Err(err);
                },
            };
            proof {
                use_type_invariant(&entry);
                let old_view = chromosomes@.map_values(|c: ChromosomeIndex| c.model());
                assert(chromosomes@.push(entry).map_values(|c: ChromosomeIndex| c.model())
                    =~= old_view.push(entry.model()));
            }
            chromosomes.push(entry);
            k = k + 1;
        }
        Ok(FastaIndex { chromosomes })
    }

    /// The byte offset of a 1-based position of a contig; fails for an
    /// unknown contig or a position past its end.
    pub fn offset(&self, chrom: &str, pos: u64) -> (r: Result<u64, FastaError>)
        requires
            pos >= 1,
        ensures
            match offset_result(self.entries(), chrom@, pos) {
                Ok(o) => r == Ok::<u64, FastaError>(o),
                Err(m) => r is Err && r->Err_0.message@ == m,
            },
            r is Ok ==> r->Ok_0 < u64::MAX,
            entries_ok(self.entries()),
    {
        proof {
            use_type_invariant(self);
        }
        let mut i: usize = self.chromosomes.len();
        assert(self.entries().subrange(0, i as int) =~= self.entries());
        while i > 0
            invariant
                pos >= 1,
                entries_ok(self.entries()),
                0 <= i <= self.chromosomes@.len(),
                last_match(self.entries(), chrom@) == last_match(
                    self.entries().subrange(0, i as int),
                    chrom@,
                ),
            decreases i,
        {
            let c = &self.chromosomes[i - 1];
            proof {
                assert(self.entries().subrange(0, i as int).drop_last() =~= self.entries().subrange(
                    0,
                    i - 1,
                ));
            }
            if str_eq(c.name(), chrom) {
                return c.offset(pos);
            }
            i = i - 1;
        }
        let m = joined("index for ", chrom);
        Err(FastaError { message: m.concat(" does not exist") })
    }

    /// The byte range of the 1-based inclusive range `start..=end`: the
    /// offset of `start`, and the offset of `end` plus one.
    pub fn offset_range(&self, chrom: &str, start: u64, end: u64) -> (r: Result<
        (u64, u64),
        FastaError,
    >)
        requires
            start >= 1,
            end >= 1,
        ensures
            match (offset_result(self.entries(), chrom@, start), offset_result(self.entries(), chrom@, end)) {
                (Ok(a), Ok(b)) => b < u64::MAX && r == Ok::<(u64, u64), FastaError>(
                    (a, (b + 1) as u64),
                ),
                _ => r is Err,
            },
            entries_ok(self.entries()),
    {
        proof {
            use_type_invariant(self);
        }
        let offset_start = self.offset(chrom, start)?;
        let offset_end = self.offset(chrom, end)?;
        Ok((offset_start, offset_end + 1))
    }
}

/// A reference sequence file held in memory, with its index.
#[derive(Debug)]
pub struct FastaReader {
    data: Vec<u8>,
    idx: FastaIndex,
}

impl FastaReader {
    pub closed spec fn spec_data(&self) -> Seq<u8> {
        self.data@
    }

    pub closed spec fn spec_index(&self) -> FastaIndex {
        self.idx
    }

    /// The raw bytes of `start..=end` of a contig, if the index knows the
    /// range and the file holds it.
    pub open spec fn range_bytes(&self, chrom: Seq<char>, start: u64, end: u64) -> Option<Seq<u8>> {
        let es = self.spec_index().entries();
        match (offset_result(es, chrom, start), offset_result(es, chrom, end)) {
            (Ok(a), Ok(b)) => if a <= b + 1 <= self.spec_data().len() {
                Some(self.spec_data().subrange(a as int, b + 1))
            } else {
                None
            },
            _ => None,
        }
    }

    /// A reader over the bytes of a reference file and the text of its index.
    pub fn new(fasta: Vec<u8>, index: &str) -> (r: Result<Self, FastaError>)
        ensures
            match parse_lines(lines_of(index.spec_bytes()), lines_of(index.spec_bytes()).len() as int) {
                Some(es) => r is Ok && r->Ok_0.spec_index().entries() == es && r->Ok_0.spec_data()
                    == fasta@,
                None => r is Err,
            },
    {
        let idx = FastaIndex::new(index)?;
        Ok(FastaReader { data: fasta, idx })
    }

    /// The raw bytes of `start..=end` of a contig, line terminators included.
    pub fn read_range(&self, chrom: &str, start: u64, end: u64) -> (r: Result<Vec<u8>, FastaError>)
        requires
            1 <= start <= end,
        ensures
            match self.range_bytes(chrom@, start, end) {
                Some(b) => r is Ok && r->Ok_0@ == b,
                None => r is Err,
            },
            entries_ok(self.spec_index().entries()),
    {
        let (byte_start, byte_end) = self.idx.offset_range(chrom, start, end)?;
        if byte_start > byte_end || byte_end as u128 > self.data.len() as u128 {
            return Err(FastaError::new("failed to fill whole buffer"));
        }
        let a = byte_start as usize;
        let e = byte_end as usize;
        let mut buffer: Vec<u8> = Vec::new();
        let mut i = a;
        while i < e
            invariant
                a <= i <= e <= self.data@.len(),
                buffer@ == self.data@.subrange(a as int, i as int),
            decreases e - i,
        {
            buffer.push(self.data[i]);
            proof {
                assert(self.data@.subrange(a as int, i + 1) =~= self.data@.subrange(a as int, i as int).push(self.data@[i as int]));
            }
            i = i + 1;
        }
        Ok(buffer)
    }

    /// The bases of `start..=end` of a contig, line terminators dropped;
    /// fails where the range cannot be read or holds a byte that is not a
    /// base.
    pub fn read_sequence(&self, chrom: &str, start: u64, end: u64) -> (r: Result<Sequence, FastaError>)
        requires
            1 <= start <= end,
        ensures
            match self.range_bytes(chrom@, start, end) {
                Some(b) => match decode_bytes(b) {
                    Some(s) => r is Ok && r->Ok_0@ == s,
                    None => r is Err,
                },
                None => r is Err,
            },
            entries_ok(self.spec_index().entries()),
    {
        let raw_bytes = self.read_range(chrom, start, end)?;
        let length = (end - start) as usize;
        match Sequence::from_raw_bytes(raw_bytes.as_slice(), length) {
            Ok(s) => Ok(s),
            Err(e) => Err(FastaError { message: e.message }),
        }
    }
}

/// Within a contig whose lines hold at least their bases (`line_bytes >=
/// line_bases`), a later position lies at a later byte.
pub proof fn lemma_offset_increasing(m: EntryModel, p: int, q: int)
    requires
        m.3 > 0,
        m.4 >= m.3,
        1 <= p < q,
    ensures
        offset_at(m, p) < offset_at(m, q),
{
    let a = p - 1;
    let b = q - 1;
    let l = m.3 as int;
    let y = m.4 as int;
    vstd::arithmetic::div_mod::lemma_fundamental_div_mod(a, l);
    vstd::arithmetic::div_mod::lemma_fundamental_div_mod(b, l);
    let qa = a / l;
    let qb = b / l;
    let ra = a % l;
    let rb = b % l;
    assert(0 <= ra < l && 0 <= rb < l) by {
        vstd::arithmetic::div_mod::lemma_mod_bound(a, l);
        vstd::arithmetic::div_mod::lemma_mod_bound(b, l);
    }
    assert(qa <= qb) by (nonlinear_arith)
        requires
            a == l * qa + ra,
            b == l * qb + rb,
            0 <= ra < l,
            0 <= rb < l,
            a < b,
    ;
    if qa == qb {
        assert(ra < rb);
    } else {
        assert(qa * y + ra < qb * y + rb) by (nonlinear_arith)
            requires
                qa < qb,
                y >= l,
                0 <= ra < l,
                0 <= rb,
        ;
    }
}

/// On a contig of the index whose lines hold at least their bases, a
/// query succeeds exactly up to the contig's length, and a later position
/// gives a later byte offset.
pub proof fn lemma_offset_result_increasing(es: Seq<EntryModel>, name: Seq<char>, p: u64, q: u64)
    requires
        1 <= p < q,
        last_match(es, name) is Some,
        ({
            let m = last_match(es, name).unwrap();
            entry_ok(m.1, m.2, m.3, m.4) && m.4 >= m.3
        }),
    ensures
        ({
            let m = last_match(es, name).unwrap();
            &&& (offset_result(es, name, q) is Ok <==> q <= m.1)
            &&& (q <= m.1 ==> offset_result(es, name, p)->Ok_0 < offset_result(es, name, q)->Ok_0)
        }),
{
    let m = last_match(es, name).unwrap();
    if q <= m.1 {
        lemma_offset_bound(m.1, m.2, m.3, m.4, p);
        lemma_offset_bound(m.1, m.2, m.3, m.4, q);
        lemma_offset_increasing(m, p as int, q as int);
    }
}

/// Each span starts at a 1-based position and does not end before it.
pub open spec fn spans_ok(s: Seq<(u32, u32)>) -> bool {
    forall|k: int| 0 <= k < s.len() ==> 1 <= (#[trigger] s[k]).0 <= s[k].1
}

/// The bases of the spans `s[..n]` of a contig, one after the other, or
/// `None` if one of them cannot be read.
pub open spec fn spans_sequence(f: &FastaReader, chrom: Seq<char>, s: Seq<(u32, u32)>, n: int) -> Option<
    Seq<crate::sequence::Nucleotide>,
>
    decreases n,
{
    if n <= 0 || n > s.len() {
        Some(seq![])
    } else {
        match spans_sequence(f, chrom, s, n - 1) {
            None => None,
            Some(prev) => match f.range_bytes(chrom, s[n - 1].0 as u64, s[n - 1].1 as u64) {
                None => None,
                Some(b) => match decode_bytes(b) {
                    None => None,
                    Some(x) => Some(prev + x),
                },
            },
        }
    }
}

/// The spans of a transcript that a format covers: the coding parts, the
/// exons, or the whole transcript.
pub open spec fn format_spans(t: &Transcript, format: FastaFormat) -> Seq<(u32, u32)> {
    let ex = t.spec_exons();
    match format {
        FastaFormat::Cds => cds_spans(ex, ex.len() as int),
        FastaFormat::Exons => exon_spans(ex, ex.len() as int),
        FastaFormat::Transcript => seq![(ex[0].spec_start(), ex.last().spec_end())],
    }
}

impl FastaReader {
    /// The sequence of a transcript in the given format, read in the
    /// transcript's direction: reverse-complemented on the minus strand.
    pub fn transcript_sequence(&self, transcript: &Transcript, format: FastaFormat) -> (r: Result<
        Sequence,
        FastaError,
    >)
        requires
            transcript.spec_exons().len() > 0,
            cds_paired(transcript.spec_exons()),
            spans_ok(format_spans(transcript, format)),
        ensures
            ({
                let s = format_spans(transcript, format);
                match spans_sequence(self, transcript.spec_chrom(), s, s.len() as int) {
                    Some(x) => r is Ok && r->Ok_0@ == (if transcript.spec_forward() {
                        x
                    } else {
                        reverse_complement_of(x)
                    }),
                    None => r is Err,
                }
            }),
    {
        let segments: CoordinateVector = match format {
            FastaFormat::Cds => transcript.cds_coordinates(),
            FastaFormat::Exons => transcript.exon_coordinates(),
            FastaFormat::Transcript => {
                let whole: CoordinateVector = vec![(transcript.chrom(), transcript.tx_start(), transcript.tx_end())];
                proof {
                    assert(spans(whole@) =~= seq![(whole@[0].1, whole@[0].2)]);
                }
                whole
            },
        };
        let ghost sp = spans(segments@);
        assert(sp == format_spans(transcript, format));
        let mut seq = Sequence::new();
        let mut i: usize = 0;
        while i < segments.len()
            invariant
                0 <= i <= segments@.len(),
                sp == spans(segments@),
                sp == format_spans(transcript, format),
                spans_ok(sp),
                all_on(segments@, transcript.spec_chrom()),
                spans_sequence(self, transcript.spec_chrom(), sp, i as int) == Some(seq@),
            decreases segments@.len() - i,
        {
            let seg: Coordinate = segments[i];
            assert(sp[i as int] == (seg.1, seg.2));
            let part = match self.read_sequence(seg.0, seg.1 as u64, seg.2 as u64) {
                Ok(p) => p,
                Err(e) => {
                    proof {
                        assert(seg.0@ == transcript.spec_chrom());
                        assert(spans_sequence(self, transcript.spec_chrom(), sp, i as int + 1) is None);
                        lemma_spans_sequence_fails(self, transcript.spec_chrom(), sp, i as int + 1, sp.len() as int);
                    }
                    return Err(e);
                },
            };
            seq.append(part);
            i = i + 1;
        }
        if !transcript.forward() {
            seq.reverse_complement();
        }
        Ok(seq)
    }
}

proof fn lemma_spans_sequence_fails(f: &FastaReader, chrom: Seq<char>, s: Seq<(u32, u32)>, k: int, n: int)
    requires
        1 <= k <= n <= s.len(),
        spans_sequence(f, chrom, s, k) is None,
    ensures
        spans_sequence(f, chrom, s, n) is None,
    decreases n - k,
{
    if k < n {
        lemma_spans_sequence_fails(f, chrom, s, k, n - 1);
    }
}

/// The kind of a feature: 5' UTR, coding part, or 3' UTR.
#[derive(Clone, Copy, Debug, PartialEq, Eq, Structural)]
pub enum FeatureKind {
    Utr5,
    Cds,
    Utr3,
}

impl FeatureKind {
    /// The name of the kind: `5UTR`, `CDS` or `3UTR`.
    pub fn as_str(&self) -> (r: &str)
        ensures
            r@ == match self {
                FeatureKind::Utr5 => "5UTR"@,
                FeatureKind::Cds => "CDS"@,
                FeatureKind::Utr3 => "3UTR"@,
            },
    {
        match self {
            FeatureKind::Utr5 => "5UTR",
            FeatureKind::Cds => "CDS",
            FeatureKind::Utr3 => "3UTR",
        }
    }
}

/// The features of a transcript left to right on the genome: 5' UTR
/// parts, coding parts, 3' UTR parts on the plus strand; 3' UTR, coding,
/// 5' UTR parts on the minus strand.
pub open spec fn feature_spans(t: &Transcript) -> Seq<(FeatureKind, (u32, u32))> {
    let ex = t.spec_exons();
    let cds = cds_spans(ex, ex.len() as int).map_values(|s: (u32, u32)| (FeatureKind::Cds, s));
    let u5 = t.spec_utr5().map_values(|s: (u32, u32)| (FeatureKind::Utr5, s));
    let u3 = t.spec_utr3().map_values(|s: (u32, u32)| (FeatureKind::Utr3, s));
    if t.spec_forward() {
        u5 + cds + u3
    } else {
        u3 + cds + u5
    }
}

/// The bases of one span of a contig, read in the transcript's direction.
pub open spec fn span_bases(f: &FastaReader, chrom: Seq<char>, s: (u32, u32), forward: bool) -> Option<
    Seq<crate::sequence::Nucleotide>,
> {
    match f.range_bytes(chrom, s.0 as u64, s.1 as u64) {
        None => None,
        Some(b) => match decode_bytes(b) {
            None => None,
            Some(x) => Some(
                if forward {
                    x
                } else {
                    reverse_complement_of(x)
                },
            ),
        },
    }
}

impl FastaReader {
    fn feature_part(
        &self,
        transcript: &Transcript,
        coords: CoordinateVector,
        kind: FeatureKind,
        out: &mut Vec<(FeatureKind, u32, u32, Sequence)>,
    ) -> (r: Result<(), FastaError>)
        requires
            spans_ok(spans(coords@)),
            all_on(coords@, transcript.spec_chrom()),
        ensures
            r is Ok ==> final(out)@.len() == old(out)@.len() + coords@.len() && (forall|k: int|
                0 <= k < old(out)@.len() ==> final(out)@[k] == old(out)@[k]) && (forall|k: int|
                0 <= k < coords@.len() ==> {
                    let o = #[trigger] final(out)@[old(out)@.len() + k];
                    &&& o.0 == kind
                    &&& o.1 == coords@[k].1
                    &&& o.2 == coords@[k].2
                    &&& span_bases(self, transcript.spec_chrom(), (coords@[k].1, coords@[k].2), transcript.spec_forward()) == Some(o.3@)
                }),
            r is Err ==> exists|k: int|
                0 <= k < coords@.len() && span_bases(
                    self,
                    transcript.spec_chrom(),
                    (#[trigger] coords@[k].1, coords@[k].2),
                    transcript.spec_forward(),
                ) is None,
    {
        let ghost base = out@.len();
        let ghost start_out = out@;
        let mut i: usize = 0;
        while i < coords.len()
            invariant
                0 <= i <= coords@.len(),
                spans_ok(spans(coords@)),
                all_on(coords@, transcript.spec_chrom()),
                out@.len() == base + i,
                forall|k: int| 0 <= k < base ==> out@[k] == start_out[k],
                forall|k: int|
                    0 <= k < i ==> {
                        let o = #[trigger] out@[base + k];
                        &&& o.0 == kind
                        &&& o.1 == coords@[k].1
                        &&& o.2 == coords@[k].2
                        &&& span_bases(self, transcript.spec_chrom(), (coords@[k].1, coords@[k].2), transcript.spec_forward()) == Some(o.3@)
                    },
            decreases coords@.len() - i,
        {
            let c = coords[i];
            assert(spans(coords@)[i as int] == (c.1, c.2));
            let mut seq = match self.read_sequence(c.0, c.1 as u64, c.2 as u64) {
                Ok(x) => x,
                Err(e) => {
                    assert(span_bases(self, transcript.spec_chrom(), (coords@[i as int].1, coords@[i as int].2), transcript.spec_forward()) is None);
                    return Err(e);
                },
            };
            if !transcript.forward() {
                seq.reverse_complement();
            }
            out.push((kind, c.1, c.2, seq));
            i = i + 1;
        }
        Ok(())
    }

    /// The bases of each UTR part and coding part of a transcript, left to
    /// right on the genome (see [`feature_spans`]), each with its kind and
    /// interval and read in the transcript's direction.
    pub fn feature_sequences(&self, transcript: &Transcript) -> (r: Result<
        Vec<(FeatureKind, u32, u32, Sequence)>,
        FastaError,
    >)
        requires
            cds_paired(transcript.spec_exons()),
            spans_ok(feature_spans(transcript).map_values(|f: (FeatureKind, (u32, u32))| f.1)),
        ensures
            ({
                let fs = feature_spans(transcript);
                &&& r is Ok ==> r->Ok_0@.len() == fs.len() && forall|k: int|
                    0 <= k < fs.len() ==> {
                        let o = #[trigger] r->Ok_0@[k];
                        &&& o.0 == fs[k].0
                        &&& (o.1, o.2) == fs[k].1
                        &&& span_bases(self, transcript.spec_chrom(), fs[k].1, transcript.spec_forward()) == Some(o.3@)
                    }
                &&& r is Err ==> exists|k: int|
                    0 <= k < fs.len() && span_bases(self, transcript.spec_chrom(), #[trigger] fs[k].1, transcript.spec_forward()) is None
            }),
    {
        let forward = transcript.forward();
        let (first, first_kind, last, last_kind) = if forward {
            (transcript.utr5_coordinates(), FeatureKind::Utr5, transcript.utr3_coordinates(), FeatureKind::Utr3)
        } else {
            (transcript.utr3_coordinates(), FeatureKind::Utr3, transcript.utr5_coordinates(), FeatureKind::Utr5)
        };
        let cds = transcript.cds_coordinates();
        let ghost fs = feature_spans(transcript);
        let ghost n1 = first@.len();
        let ghost n2 = cds@.len();
        let ghost all = fs.map_values(|f: (FeatureKind, (u32, u32))| f.1);
        proof {
            assert(fs.len() == first@.len() + cds@.len() + last@.len());
            assert forall|k: int| 0 <= k < fs.len() implies #[trigger] fs[k] == (if k < n1 {
                (first_kind, (first@[k].1, first@[k].2))
            } else if k < n1 + n2 {
                (FeatureKind::Cds, (cds@[k - n1].1, cds@[k - n1].2))
            } else {
                (last_kind, (last@[k - n1 - n2].1, last@[k - n1 - n2].2))
            }) by {
                if k < n1 {
                    assert(spans(first@)[k] == (first@[k].1, first@[k].2));
                } else if k < n1 + n2 {
                    assert(spans(cds@)[k - n1] == (cds@[k - n1].1, cds@[k - n1].2));
                } else {
                    assert(spans(last@)[k - n1 - n2] == (last@[k - n1 - n2].1, last@[k - n1 - n2].2));
                }
            }
            assert forall|k: int| 0 <= k < first@.len() implies 1 <= (#[trigger] spans(first@)[k]).0 <= spans(first@)[k].1 by {
                assert(all[k] == fs[k].1);
            }
            assert forall|k: int| 0 <= k < cds@.len() implies 1 <= (#[trigger] spans(cds@)[k]).0 <= spans(cds@)[k].1 by {
                assert(all[n1 + k] == fs[n1 + k].1);
            }
            assert forall|k: int| 0 <= k < last@.len() implies 1 <= (#[trigger] spans(last@)[k]).0 <= spans(last@)[k].1 by {
                assert(all[n1 + n2 + k] == fs[n1 + n2 + k].1);
            }
        }
        let mut out: Vec<(FeatureKind, u32, u32, Sequence)> = Vec::new();
        let ghost first_v = first@;
        let ghost cds_v = cds@;
        let ghost last_v = last@;
        match self.feature_part(transcript, first, first_kind, &mut out) {
            Ok(()) => {},
            Err(e) => {
                proof {
                    let k = choose|k: int| 0 <= k < first_v.len() && span_bases(self, transcript.spec_chrom(), (#[trigger] first_v[k].1, first_v[k].2), transcript.spec_forward()) is None;
                    assert(fs[k].1 == (first_v[k].1, first_v[k].2));
                }
                return Err(e);
            },
        }
        let ghost out1 = out@;
        match self.feature_part(transcript, cds, FeatureKind::Cds, &mut out) {
            Ok(()) => {},
            Err(e) => {
                proof {
                    let k = choose|k: int| 0 <= k < cds_v.len() && span_bases(self, transcript.spec_chrom(), (#[trigger] cds_v[k].1, cds_v[k].2), transcript.spec_forward()) is None;
                    assert(fs[n1 + k].1 == (cds_v[k].1, cds_v[k].2));
                }
                return Err(e);
            },
        }
        let ghost out2 = out@;
        match self.feature_part(transcript, last, last_kind, &mut out) {
            Ok(()) => {},
            Err(e) => {
                proof {
                    let k = choose|k: int| 0 <= k < last_v.len() && span_bases(self, transcript.spec_chrom(), (#[trigger] last_v[k].1, last_v[k].2), transcript.spec_forward()) is None;
                    assert(fs[n1 + n2 + k].1 == (last_v[k].1, last_v[k].2));
                }
                return Err(e);
            },
        }
        proof {
            assert forall|k: int| 0 <= k < fs.len() implies {
                let o = #[trigger] out@[k];
                &&& o.0 == fs[k].0
                &&& (o.1, o.2) == fs[k].1
                &&& span_bases(self, transcript.spec_chrom(), fs[k].1, transcript.spec_forward()) == Some(o.3@)
            } by {
                if k < n1 {
                    assert(out@[k] == out2[k]);
                    assert(out2[k] == out1[k]);
                    assert(out1[0 + k] == out1[k]);
                } else if k < n1 + n2 {
                    assert(out@[k] == out2[k]);
                    assert(out2[n1 + (k - n1)] == out2[k]);
                } else {
                    assert(out@[n1 + n2 + (k - n1 - n2)] == out@[k]);
                }
            }
        }
        Ok(out)
    }
}

} // verus!
