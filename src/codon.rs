//! Codons: the three bases of a translation unit, which may be split over
//! up to three exons.
use vstd::prelude::*;
use crate::errors::BuildCodonError;
use crate::exon::Exon;
use crate::frame::{Frame, frame_of};
use crate::status::Strand;
use crate::text::owned;
use crate::transcript::{Transcript, cds_paired, exons_ordered};

verus! {

/// A piece of a codon within one exon.
#[derive(Debug)]
pub struct CodonFragment {
    chrom: String,
    start: u32,
    end: u32,
    frame_offset: Frame,
    strand: Strand,
}

/// A codon: fragments, left to right, whose lengths add up to three bases.
#[derive(Debug)]
pub struct Codon {
    fragments: Vec<CodonFragment>,
}

/// Start, end and frame of a fragment.
pub type Piece = (u32, u32, Frame);

/// The number of bases of the pieces.
pub open spec fn piece_total(s: Seq<Piece>) -> int
    decreases s.len(),
{
    if s.len() == 0 {
        0
    } else {
        piece_total(s.drop_last()) + (s.last().1 - s.last().0 + 1)
    }
}

/// The pieces lie left to right, each `start <= end`, without overlap.
pub open spec fn pieces_ordered(s: Seq<Piece>) -> bool {
    &&& forall|k: int| 0 <= k < s.len() ==> (#[trigger] s[k]).0 <= s[k].1
    &&& forall|a: int, b: int| 0 <= a < b < s.len() ==> (#[trigger] s[a]).1 < (#[trigger] s[b]).0
}

pub open spec fn imax(a: int, b: int) -> int {
    if a >= b { a } else { b }
}

pub open spec fn imin(a: int, b: int) -> int {
    if a <= b { a } else { b }
}

/// The pieces of the codon that begins at `p` and reads rightwards, taken
/// from the coding parts of `exons[i..]`, once `len` bases are found.
pub open spec fn down_pieces(exons: Seq<Exon>, i: int, p: int, len: int) -> Seq<Piece>
    decreases exons.len() - i,
{
    if i < 0 || i >= exons.len() || len >= 3 {
        seq![]
    } else if !exons[i].spec_is_coding() {
        down_pieces(exons, i + 1, p, len)
    } else {
        let cs = exons[i].spec_cds_start().unwrap() as int;
        let ce = exons[i].spec_cds_end().unwrap() as int;
        let w = imax(p, cs) + (2 - len);
        if cs <= w && ce >= p {
            let s = imax(cs, p);
            let e = imin(ce, w);
            seq![(s as u32, e as u32, frame_of(3 - len))] + down_pieces(
                exons,
                i + 1,
                p,
                len + (e - s + 1),
            )
        } else {
            down_pieces(exons, i + 1, p, len)
        }
    }
}

/// The pieces of the codon that ends at `p` and reads leftwards, taken from
/// the coding parts of `exons[..i]` from right to left, once `len` bases are
/// found; listed left to right.
pub open spec fn up_pieces(exons: Seq<Exon>, i: int, p: int, len: int) -> Seq<Piece>
    decreases i,
{
    if i <= 0 || i > exons.len() || len >= 3 {
        seq![]
    } else if !exons[i - 1].spec_is_coding() {
        up_pieces(exons, i - 1, p, len)
    } else {
        let cs = exons[i - 1].spec_cds_start().unwrap() as int;
        let ce = exons[i - 1].spec_cds_end().unwrap() as int;
        let lo = imin(p, ce) - (2 - len);
        if cs <= p && ce >= lo {
            let s = imax(cs, lo);
            let e = imin(ce, p);
            let n = len + (e - s + 1);
            up_pieces(exons, i - 1, p, n) + seq![(s as u32, e as u32, frame_of(n))]
        } else {
            up_pieces(exons, i - 1, p, len)
        }
    }
}

/// `p` lies within the transcript's CDS.
pub open spec fn anchor_in_cds(t: &Transcript, p: u32) -> bool {
    &&& t.spec_is_coding()
    &&& t.spec_cds_start().is_some()
    &&& t.spec_cds_end().is_some()
    &&& t.spec_cds_start().unwrap() <= p <= t.spec_cds_end().unwrap()
}

/// The pieces of the codon downstream of `p`, if they make a whole codon.
pub open spec fn downstream_codon(t: &Transcript, p: u32) -> Option<Seq<Piece>> {
    let s = down_pieces(t.spec_exons(), 0, p as int, 0);
    if anchor_in_cds(t, p) && piece_total(s) == 3 {
        Some(s)
    } else {
        None
    }
}

/// The pieces of the codon upstream of `p`, if they make a whole codon.
pub open spec fn upstream_codon(t: &Transcript, p: u32) -> Option<Seq<Piece>> {
    let s = up_pieces(t.spec_exons(), t.spec_exons().len() as int, p as int, 0);
    if anchor_in_cds(t, p) && piece_total(s) == 3 {
        Some(s)
    } else {
        None
    }
}

/// The pieces of a list of fragments.
pub open spec fn pieces_of(f: Seq<CodonFragment>) -> Seq<Piece> {
    f.map_values(|x: CodonFragment| x.spec_piece())
}

/// The codon's fragments are the given pieces on the transcript's
/// chromosome and strand.
pub open spec fn codon_matches(c: Codon, t: &Transcript, s: Seq<Piece>) -> bool {
    &&& pieces_of(c.spec_fragments()) == s
    &&& forall|k: int|
        0 <= k < c.spec_fragments().len() ==> (#[trigger] c.spec_fragments()[k]).spec_chrom()
            == t.spec_chrom() && c.spec_fragments()[k].spec_strand() == t.spec_strand()
}

proof fn lemma_piece_total_prepend(x: Piece, s: Seq<Piece>)
    ensures
        piece_total(seq![x] + s) == piece_total(s) + (x.1 - x.0 + 1),
    decreases s.len(),
{
    if s.len() == 0 {
        assert((seq![x] + s).drop_last() =~= s);
    } else {
        assert((seq![x] + s).drop_last() =~= seq![x] + s.drop_last());
        lemma_piece_total_prepend(x, s.drop_last());
    }
}

proof fn lemma_pieces_push(f: Seq<CodonFragment>, x: CodonFragment)
    ensures
        pieces_of(f.push(x)) == pieces_of(f).push(x.spec_piece()),
{
    assert(pieces_of(f.push(x)) =~= pieces_of(f).push(x.spec_piece()));
}

proof fn lemma_pieces_prepend(f: Seq<CodonFragment>, x: CodonFragment)
    ensures
        pieces_of(seq![x] + f) == seq![x.spec_piece()] + pieces_of(f),
{
    assert(pieces_of(seq![x] + f) =~= seq![x.spec_piece()] + pieces_of(f));
}

impl CodonFragment {
    pub closed spec fn spec_chrom(&self) -> Seq<char> {
        self.chrom@
    }

    pub closed spec fn spec_strand(&self) -> Strand {
        self.strand
    }

    pub closed spec fn spec_piece(&self) -> Piece {
        (self.start, self.end, self.frame_offset)
    }

    pub fn new(chrom: &str, start: u32, end: u32, frame_offset: Frame, strand: Strand) -> (r: Self)
        ensures
            r.spec_chrom() == chrom@,
            r.spec_piece() == (start, end, frame_offset),
            r.spec_strand() == strand,
    {
        CodonFragment { chrom: owned(chrom), start, end, frame_offset, strand }
    }

    /// The number of bases, the first one included.
    pub fn len(&self) -> (r: u32)
        requires
            self.spec_piece().0 <= self.spec_piece().1,
            self.spec_piece().1 - self.spec_piece().0 < u32::MAX,
        ensures
            r == self.spec_piece().1 - self.spec_piece().0 + 1,
    {
        self.end - self.start + 1
    }

    pub fn chrom(&self) -> (r: &str)
        ensures
            r@ == self.spec_chrom(),
    {
        self.chrom.as_str()
    }

    pub fn start(&self) -> (r: &u32)
        ensures
            *r == self.spec_piece().0,
    {
        &self.start
    }

    pub fn end(&self) -> (r: &u32)
        ensures
            *r == self.spec_piece().1,
    {
        &self.end
    }

    pub fn frame_offset(&self) -> (r: Frame)
        ensures
            r == self.spec_piece().2,
    {
        self.frame_offset
    }

    pub fn strand(&self) -> (r: Strand)
        ensures
            r == self.spec_strand(),
    {
        self.strand
    }
}

impl Codon {
    pub closed spec fn spec_fragments(&self) -> Seq<CodonFragment> {
        self.fragments@
    }

    /// A codon of the given fragments, if their lengths add up to three.
    pub fn new(fragments: Vec<CodonFragment>) -> (r: Result<Self, BuildCodonError>)
        requires
            forall|k: int|
                0 <= k < fragments@.len() ==> (#[trigger] fragments@[k]).spec_piece().0
                    <= fragments@[k].spec_piece().1,
        ensures
            piece_total(pieces_of(fragments@)) == 3 ==> r is Ok && r->Ok_0.spec_fragments()
                == fragments@,
            piece_total(pieces_of(fragments@)) != 3 ==> r is Err && r->Err_0.message@
                == "length != 3"@,
    {
        let mut len: u64 = 0;
        let mut i: usize = 0;
        while i < fragments.len()
            invariant
                0 <= i <= fragments@.len(),
                forall|k: int|
                    0 <= k < fragments@.len() ==> (#[trigger] fragments@[k]).spec_piece().0
                        <= fragments@[k].spec_piece().1,
                len <= 3 ==> len == piece_total(pieces_of(fragments@.subrange(0, i as int))),
                len > 3 ==> piece_total(pieces_of(fragments@.subrange(0, i as int))) > 3,
                len <= 4 + 0xffff_ffff,
            decreases fragments@.len() - i,
        {
            let ghost before = fragments@.subrange(0, i as int);
            let f = &fragments[i];
            let n = (f.end - f.start) as u64 + 1;
            proof {
                assert(fragments@.subrange(0, i + 1) =~= before.push(fragments@[i as int]));
                lemma_pieces_push(before, fragments@[i as int]);
                let ps = pieces_of(before.push(fragments@[i as int]));
                assert(ps.drop_last() =~= pieces_of(before));
            }
            if len <= 3 {
                len = len + n;
            }
            i = i + 1;
        }
        assert(fragments@.subrange(0, fragments@.len() as int) =~= fragments@);
        if len != 3 {
            return Err(BuildCodonError::new("length != 3"));
        }
        Ok(Codon { fragments })
    }

    /// The codon on the transcript's strand that starts at `start`: read
    /// rightwards on the plus strand, leftwards on the minus strand.
    pub fn from_transcript(transcript: &Transcript, start: &u32) -> (r: Result<Self, BuildCodonError>)
        requires
            cds_paired(transcript.spec_exons()),
        ensures
            match transcript.spec_strand() {
                Strand::Plus => match downstream_codon(transcript, *start) {
                    Some(s) => r is Ok && codon_matches(r->Ok_0, transcript, s),
                    None => r is Err,
                },
                Strand::Minus => match upstream_codon(transcript, *start) {
                    Some(s) => r is Ok && codon_matches(r->Ok_0, transcript, s),
                    None => r is Err,
                },
                Strand::Unknown => r is Err && r->Err_0.message@
                    == "transcript with unknown Strand"@,
            },
    {
        match transcript.strand() {
            Strand::Plus => Codon::downstream(transcript, start),
            Strand::Minus => Codon::upstream(transcript, start),
            Strand::Unknown => Err(BuildCodonError::new("transcript with unknown Strand")),
        }
    }

    /// The codon whose first base is at `start`, read rightwards through
    /// the coding parts of the exons.
    pub fn downstream(transcript: &Transcript, start: &u32) -> (r: Result<Self, BuildCodonError>)
        requires
            cds_paired(transcript.spec_exons()),
        ensures
            match downstream_codon(transcript, *start) {
                Some(s) => r is Ok && codon_matches(r->Ok_0, transcript, s),
                None => r is Err,
            },
    {
        Codon::sanity_check(transcript, start)?;
        let p = *start;
        let exons = transcript.exons();
        let ghost all = down_pieces(exons@, 0, p as int, 0);
        let mut len: u32 = 0;
        let mut fragments: Vec<CodonFragment> = Vec::new();
        let mut i: usize = 0;
        while i < exons.len() && len < 3
            invariant
                cds_paired(exons@),
                exons@ == transcript.spec_exons(),
                0 <= i <= exons@.len(),
                len <= 3,
                pieces_of(fragments@) + down_pieces(exons@, i as int, p as int, len as int) == all,
                piece_total(pieces_of(fragments@)) == len,
                len >= 3 ==> down_pieces(exons@, i as int, p as int, len as int) == Seq::<
                    Piece,
                >::empty(),
                forall|k: int|
                    0 <= k < fragments@.len() ==> (#[trigger] fragments@[k]).spec_piece().0
                        <= fragments@[k].spec_piece().1 && fragments@[k].spec_chrom()
                        == transcript.spec_chrom() && fragments@[k].spec_strand()
                        == transcript.spec_strand(),
            decreases exons@.len() - i,
        {
            let exon = &exons[i];
            if exon.is_coding() {
                let cs = exon.cds_start().unwrap();
                let ce = exon.cds_end().unwrap();
                let lo = if p >= cs { p } else { cs };
                let w: u64 = lo as u64 + (2 - len) as u64;
                if (cs as u64) <= w && ce >= p {
                    let s = if cs >= p { cs } else { p };
                    let e: u32 = if (ce as u64) <= w { ce } else { w as u32 };
                    let frame = Frame::from_int((3 - len) % 3);
                    let frame = match frame {
                        Ok(f) => f,
                        Err(_) => Frame::Zero,
                    };
                    let frag = CodonFragment::new(
                        transcript.chrom(),
                        s,
                        e,
                        frame,
                        transcript.strand(),
                    );
                    proof {
                        lemma_pieces_push(fragments@, frag);
                        let ps = pieces_of(fragments@).push(frag.spec_piece());
                        assert(ps.drop_last() =~= pieces_of(fragments@));
                        assert(frame_of((3 - len) as int) == frame_of(((3 - len) % 3) as int));
                    }
                    fragments.push(frag);
                    len = len + (e - s + 1);
                }
            }
            i = i + 1;
        }
        proof {
            if len < 3 {
                assert(i >= exons@.len());
            }
            assert(down_pieces(exons@, i as int, p as int, len as int) =~= Seq::<Piece>::empty());
        }
        assert(pieces_of(fragments@) =~= all);
        Codon::new(fragments)
    }

    /// The codon whose last base is at `start`, read leftwards through the
    /// coding parts of the exons; its fragments are listed left to right.
    pub fn upstream(transcript: &Transcript, start: &u32) -> (r: Result<Self, BuildCodonError>)
        requires
            cds_paired(transcript.spec_exons()),
        ensures
            match upstream_codon(transcript, *start) {
                Some(s) => r is Ok && codon_matches(r->Ok_0, transcript, s),
                None => r is Err,
            },
    {
        Codon::sanity_check(transcript, start)?;
        let p = *start;
        let exons = transcript.exons();
        let ghost all = up_pieces(exons@, exons@.len() as int, p as int, 0);
        let mut len: u32 = 0;
        let mut fragments: Vec<CodonFragment> = Vec::new();
        let mut i: usize = exons.len();
        while i > 0 && len < 3
            invariant
                cds_paired(exons@),
                exons@ == transcript.spec_exons(),
                0 <= i <= exons@.len(),
                len <= 3,
                up_pieces(exons@, i as int, p as int, len as int) + pieces_of(fragments@) == all,
                piece_total(pieces_of(fragments@)) == len,
                len >= 3 ==> up_pieces(exons@, i as int, p as int, len as int) == Seq::<
                    Piece,
                >::empty(),
                forall|k: int|
                    0 <= k < fragments@.len() ==> (#[trigger] fragments@[k]).spec_piece().0
                        <= fragments@[k].spec_piece().1 && fragments@[k].spec_chrom()
                        == transcript.spec_chrom() && fragments@[k].spec_strand()
                        == transcript.spec_strand(),
            decreases i,
        {
            let exon = &exons[i - 1];
            if exon.is_coding() {
                let cs = exon.cds_start().unwrap();
                let ce = exon.cds_end().unwrap();
                let m = if p <= ce { p } else { ce };
                let back = 2 - len;
                let lo: u32 = if m >= back { m - back } else { 0 };
                if cs <= p && ce >= lo {
                    let s = if cs >= lo { cs } else { lo };
                    let e = if ce <= p { ce } else { p };
                    let n = len + (e - s + 1);
                    let frame = Frame::from_int(n % 3);
                    let frame = match frame {
                        Ok(f) => f,
                        Err(_) => Frame::Zero,
                    };
                    let frag = CodonFragment::new(
                        transcript.chrom(),
                        s,
                        e,
                        frame,
                        transcript.strand(),
                    );
                    proof {
                        lemma_pieces_prepend(fragments@, frag);
                        lemma_piece_total_prepend(frag.spec_piece(), pieces_of(fragments@));
                        assert(seq![frag] + fragments@ =~= fragments@.insert(0, frag));
                    }
                    fragments.insert(0, frag);
                    len = n;
                }
            }
            i = i - 1;
        }
        proof {
            if len < 3 {
                assert(i == 0);
            }
            assert(up_pieces(exons@, i as int, p as int, len as int) =~= Seq::<Piece>::empty());
        }
        assert(pieces_of(fragments@) =~= all);
        Codon::new(fragments)
    }

    /// The first base of the codon.
    pub fn start(&self) -> (r: &u32)
        requires
            self.spec_fragments().len() > 0,
        ensures
            *r == self.spec_fragments()[0].spec_piece().0,
    {
        self.fragments[0].start()
    }

    /// The last base of the codon.
    pub fn end(&self) -> (r: &u32)
        requires
            self.spec_fragments().len() > 0,
        ensures
            *r == self.spec_fragments().last().spec_piece().1,
    {
        self.fragments[self.fragments.len() - 1].end()
    }

    pub fn fragments(&self) -> (r: &Vec<CodonFragment>)
        ensures
            r@ == self.spec_fragments(),
    {
        &self.fragments
    }

    /// Start, end and frame of each fragment.
    pub fn to_tuple(self) -> (r: Vec<(u32, u32, Frame)>)
        ensures
            r@ == pieces_of(self.spec_fragments()),
    {
        let mut res: Vec<(u32, u32, Frame)> = Vec::new();
        let mut i: usize = 0;
        while i < self.fragments.len()
            invariant
                0 <= i <= self.fragments@.len(),
                res@ == pieces_of(self.fragments@.subrange(0, i as int)),
            decreases self.fragments@.len() - i,
        {
            let f = &self.fragments[i];
            proof {
                assert(self.fragments@.subrange(0, i + 1) =~= self.fragments@.subrange(
                    0,
                    i as int,
                ).push(self.fragments@[i as int]));
                lemma_pieces_push(self.fragments@.subrange(0, i as int), self.fragments@[i as int]);
            }
            res.push((*f.start(), *f.end(), f.frame_offset()));
            i = i + 1;
        }
        assert(self.fragments@.subrange(0, self.fragments@.len() as int) =~= self.fragments@);
        res
    }

    fn sanity_check(transcript: &Transcript, start: &u32) -> (r: Result<(), BuildCodonError>)
        ensures
            r is Ok <==> anchor_in_cds(transcript, *start),
    {
        if !transcript.is_coding() {
            return Err(BuildCodonError::new("transcript is non-coding"));
        }
        let cds_end = match transcript.cds_end() {
            Some(x) => x,
            None => return Err(BuildCodonError::new("transcript is non-coding")),
        };
        let cds_start = match transcript.cds_start() {
            Some(x) => x,
            None => return Err(BuildCodonError::new("transcript is non-coding")),
        };
        if *start > cds_end {
            return Err(BuildCodonError::new("start is downstream of the CDS"));
        }
        if *start < cds_start {
            return Err(BuildCodonError::new("start is upstream of the CDS"));
        }
        Ok(())
    }
}

proof fn lemma_down_pieces_ordered(exons: Seq<Exon>, i: int, p: int, len: int)
    requires
        exons_ordered(exons),
        0 <= i,
        0 <= p,
    ensures
        pieces_ordered(down_pieces(exons, i, p, len)),
        i < exons.len() ==> forall|k: int|
            0 <= k < down_pieces(exons, i, p, len).len() ==> (#[trigger] down_pieces(
                exons,
                i,
                p,
                len,
            )[k]).0 >= exons[i].spec_start(),
    decreases exons.len() - i,
{
    if i >= exons.len() || len >= 3 {
        return;
    }
    let e_i = exons[i];
    assert(e_i.wf());
    if i + 1 < exons.len() {
        assert(exons[i].spec_end() < exons[i + 1].spec_start());
    }
    if !e_i.spec_is_coding() {
        lemma_down_pieces_ordered(exons, i + 1, p, len);
    } else {
        let cs = e_i.spec_cds_start().unwrap() as int;
        let ce = e_i.spec_cds_end().unwrap() as int;
        let w = imax(p, cs) + (2 - len);
        if cs <= w && ce >= p {
            let st = imax(cs, p);
            let en = imin(ce, w);
            let x = (st as u32, en as u32, frame_of(3 - len));
            let n = len + (en - st + 1);
            lemma_down_pieces_ordered(exons, i + 1, p, n);
            let rest = down_pieces(exons, i + 1, p, n);
            let all = down_pieces(exons, i, p, len);
            assert(all == seq![x] + rest);
            assert forall|a: int, b: int| 0 <= a < b < all.len() implies (#[trigger] all[a]).1 < (
            #[trigger] all[b]).0 by {
                if a == 0 {
                    assert(all[b] == rest[b - 1]);
                } else {
                    assert(all[a] == rest[a - 1]);
                    assert(all[b] == rest[b - 1]);
                }
            }
            assert forall|k: int| 0 <= k < all.len() implies (#[trigger] all[k]).0 <= all[k].1 by {
                if k > 0 {
                    assert(all[k] == rest[k - 1]);
                }
            }
            assert forall|k: int| 0 <= k < all.len() implies (#[trigger] all[k]).0 >= exons[i].spec_start() by {
                if k > 0 {
                    assert(all[k] == rest[k - 1]);
                }
            }
        } else {
            lemma_down_pieces_ordered(exons, i + 1, p, len);
        }
    }
}

proof fn lemma_up_pieces_ordered(exons: Seq<Exon>, i: int, p: int, len: int)
    requires
        exons_ordered(exons),
        i <= exons.len(),
        0 <= p,
    ensures
        pieces_ordered(up_pieces(exons, i, p, len)),
        i >= 1 ==> forall|k: int|
            0 <= k < up_pieces(exons, i, p, len).len() ==> (#[trigger] up_pieces(
                exons,
                i,
                p,
                len,
            )[k]).1 <= exons[i - 1].spec_end(),
    decreases i,
{
    if i <= 0 || len >= 3 {
        return;
    }
    let e_i = exons[i - 1];
    assert(e_i.wf());
    if i >= 2 {
        assert(exons[i - 2].spec_end() < exons[i - 1].spec_start());
    }
    if !e_i.spec_is_coding() {
        lemma_up_pieces_ordered(exons, i - 1, p, len);
    } else {
        let cs = e_i.spec_cds_start().unwrap() as int;
        let ce = e_i.spec_cds_end().unwrap() as int;
        let lo = imin(p, ce) - (2 - len);
        if cs <= p && ce >= lo {
            let st = imax(cs, lo);
            let en = imin(ce, p);
            let n = len + (en - st + 1);
            let x = (st as u32, en as u32, frame_of(n));
            lemma_up_pieces_ordered(exons, i - 1, p, n);
            let rest = up_pieces(exons, i - 1, p, n);
            let all = up_pieces(exons, i, p, len);
            assert(all == rest + seq![x]);
            assert forall|a: int, b: int| 0 <= a < b < all.len() implies (#[trigger] all[a]).1 < (
            #[trigger] all[b]).0 by {
                if b == all.len() - 1 {
                    assert(all[a] == rest[a]);
                } else {
                    assert(all[a] == rest[a]);
                    assert(all[b] == rest[b]);
                }
            }
            assert forall|k: int| 0 <= k < all.len() implies (#[trigger] all[k]).0 <= all[k].1 by {
                if k < rest.len() {
                    assert(all[k] == rest[k]);
                }
            }
            assert forall|k: int| 0 <= k < all.len() implies (#[trigger] all[k]).1 <= exons[i - 1].spec_end() by {
                if k < rest.len() {
                    assert(all[k] == rest[k]);
                }
            }
        } else {
            lemma_up_pieces_ordered(exons, i - 1, p, len);
        }
    }
}

/// A codon that the builder returns, downstream or upstream of an anchor,
/// has fragments of three bases in all, listed left to right without
/// overlap, when the transcript's exons are well-formed and in order.
pub proof fn lemma_codon_pieces(t: &Transcript, p: u32)
    requires
        exons_ordered(t.spec_exons()),
    ensures
        downstream_codon(t, p) matches Some(s) ==> piece_total(s) == 3 && pieces_ordered(s),
        upstream_codon(t, p) matches Some(s) ==> piece_total(s) == 3 && pieces_ordered(s),
{
    lemma_down_pieces_ordered(t.spec_exons(), 0, p as int, 0);
    lemma_up_pieces_ordered(t.spec_exons(), t.spec_exons().len() as int, p as int, 0);
}

} // verus!
