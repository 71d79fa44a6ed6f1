//! Relations between two 1-based, inclusive genomic intervals.
use vstd::prelude::*;

verus! {

/// How interval `a` lies relative to interval `b`.
#[derive(Clone, Copy, Debug, PartialEq, Eq, Structural)]
pub enum GenomicRelation {
    Match,
    Upstream,
    Downstream,
    Overlaps,
    Inside,
    Left,
    Right,
}

impl GenomicRelation {
    /// The name of the relation; `Right` is written `light`.
    pub fn to_string(&self) -> (r: String)
        ensures
            r@ == match self {
                GenomicRelation::Match => "match"@,
                GenomicRelation::Upstream => "upstream"@,
                GenomicRelation::Downstream => "downstream"@,
                GenomicRelation::Overlaps => "overlaps"@,
                GenomicRelation::Inside => "inside"@,
                GenomicRelation::Left => "left"@,
                GenomicRelation::Right => "light"@,
            },
    {
        match self {
            GenomicRelation::Match => "match".to_owned(),
            GenomicRelation::Upstream => "upstream".to_owned(),
            GenomicRelation::Downstream => "downstream".to_owned(),
            GenomicRelation::Overlaps => "overlaps".to_owned(),
            GenomicRelation::Inside => "inside".to_owned(),
            GenomicRelation::Left => "left".to_owned(),
            GenomicRelation::Right => "light".to_owned(),
        }
    }
}

/// The relation of `(a0, a1)` to `(b0, b1)`.
pub open spec fn relation_spec(a0: u32, a1: u32, b0: u32, b1: u32) -> GenomicRelation {
    if a1 < b0 {
        GenomicRelation::Upstream
    } else if a0 > b1 {
        GenomicRelation::Downstream
    } else if a0 == b0 && a1 == b1 {
        GenomicRelation::Match
    } else if a0 <= b0 && a1 >= b1 {
        GenomicRelation::Overlaps
    } else if a0 >= b0 && a1 <= b1 {
        GenomicRelation::Inside
    } else if a0 <= b0 && a1 <= b1 {
        GenomicRelation::Left
    } else {
        GenomicRelation::Right
    }
}

pub open spec fn max_u32(x: u32, y: u32) -> u32 {
    if x >= y { x } else { y }
}

pub open spec fn min_u32(x: u32, y: u32) -> u32 {
    if x <= y { x } else { y }
}

/// Two intervals share at least one position.
pub open spec fn overlap_spec(a0: u32, a1: u32, b0: u32, b1: u32) -> bool {
    a0 <= b1 && a1 >= b0
}

/// The positions that both intervals hold, if any.
pub open spec fn intersect_spec(a0: u32, a1: u32, b0: u32, b1: u32) -> Option<(u32, u32)> {
    if overlap_spec(a0, a1, b0, b1) {
        Some((max_u32(a0, b0), min_u32(a1, b1)))
    } else {
        None
    }
}

/// The overlapping part of two intervals, or `None` if they do not overlap.
pub fn intersect(a: (&u32, &u32), b: (&u32, &u32)) -> (r: Option<(u32, u32)>)
    ensures
        r == intersect_spec(*a.0, *a.1, *b.0, *b.1),
{
    if *a.0 <= *b.1 && *a.1 >= *b.0 {
        let s = if *a.0 >= *b.0 { *a.0 } else { *b.0 };
        let e = if *a.1 <= *b.1 { *a.1 } else { *b.1 };
        Some((s, e))
    } else {
        None
    }
}

/// The smallest interval that covers two overlapping intervals, or `None`
/// if they do not overlap.
pub fn union(a: (&u32, &u32), b: (&u32, &u32)) -> (r: Option<(u32, u32)>)
    ensures
        r == (if overlap_spec(*a.0, *a.1, *b.0, *b.1) {
            Some((min_u32(*a.0, *b.0), max_u32(*a.1, *b.1)))
        } else {
            None
        }),
{
    if *a.0 <= *b.1 && *a.1 >= *b.0 {
        let s = if *a.0 <= *b.0 { *a.0 } else { *b.0 };
        let e = if *a.1 >= *b.1 { *a.1 } else { *b.1 };
        Some((s, e))
    } else {
        None
    }
}

/// Classifies how interval `a` lies relative to interval `b`.
pub fn relation(a: (&u32, &u32), b: (&u32, &u32)) -> (r: GenomicRelation)
    ensures
        r == relation_spec(*a.0, *a.1, *b.0, *b.1),
{
    if *a.1 < *b.0 {
        return GenomicRelation::Upstream;
    }
    if *a.0 > *b.1 {
        return GenomicRelation::Downstream;
    }
    if *a.0 == *b.0 && *a.1 == *b.1 {
        GenomicRelation::Match
    } else if *a.0 <= *b.0 && *a.1 >= *b.1 {
        GenomicRelation::Overlaps
    } else if *a.0 >= *b.0 && *a.1 <= *b.1 {
        GenomicRelation::Inside
    } else if *a.0 <= *b.0 && *a.1 <= *b.1 {
        GenomicRelation::Left
    } else {
        GenomicRelation::Right
    }
}

/// Some interval of `s` holds position `x`.
pub open spec fn covered(s: Seq<(u32, u32)>, x: int) -> bool {
    exists|k: int| 0 <= k < s.len() && (#[trigger] s[k]).0 <= x <= s[k].1
}

/// The first part of `a` left of `b`, if `a` starts before `b`.
pub open spec fn left_piece(a0: u32, b0: u32) -> Seq<(u32, u32)> {
    if a0 < b0 {
        seq![(a0, (b0 - 1) as u32)]
    } else {
        seq![]
    }
}

/// The last part of `a` right of `b`, if `a` ends after `b`.
pub open spec fn right_piece(a1: u32, b1: u32) -> Seq<(u32, u32)> {
    if b1 < a1 {
        seq![((b1 + 1) as u32, a1)]
    } else {
        seq![]
    }
}

/// The parts of `a` that `b` does not cover, left to right, each a real
/// interval.
pub open spec fn subtract_spec(a0: u32, a1: u32, b0: u32, b1: u32) -> Seq<(u32, u32)> {
    match relation_spec(a0, a1, b0, b1) {
        GenomicRelation::Upstream => seq![(a0, a1)],
        GenomicRelation::Downstream => seq![(a0, a1)],
        GenomicRelation::Match => seq![],
        GenomicRelation::Overlaps => left_piece(a0, b0) + right_piece(a1, b1),
        GenomicRelation::Inside => seq![],
        GenomicRelation::Left => left_piece(a0, b0),
        GenomicRelation::Right => right_piece(a1, b1),
    }
}

/// Removes interval `b` from interval `a`: the parts of `a` outside `b`,
/// left to right. For well-formed intervals every part is a real interval
/// inside `a` and outside `b`, and together they cover every position of
/// `a` that `b` does not.
pub fn subtract(a: (&u32, &u32), b: (&u32, &u32)) -> (r: Vec<(u32, u32)>)
    ensures
        r@ == subtract_spec(*a.0, *a.1, *b.0, *b.1),
        *a.0 <= *a.1 && *b.0 <= *b.1 ==> {
            &&& forall|k: int|
                0 <= k < r@.len() ==> *a.0 <= (#[trigger] r@[k]).0 <= r@[k].1 <= *a.1 && (r@[k].1
                    < *b.0 || r@[k].0 > *b.1)
            &&& forall|x: int| *a.0 <= x <= *a.1 && !(*b.0 <= x <= *b.1) ==> #[trigger] covered(r@, x)
            &&& forall|k: int, l: int| 0 <= k < l < r@.len() ==> (#[trigger] r@[k]).1 < (#[trigger] r@[l]).0
        },
{
    let a0 = *a.0;
    let a1 = *a.1;
    let b0 = *b.0;
    let b1 = *b.1;
    let r = match relation(a, b) {
        GenomicRelation::Upstream => vec![(a0, a1)],
        GenomicRelation::Downstream => vec![(a0, a1)],
        GenomicRelation::Match => vec![],
        GenomicRelation::Overlaps => {
            let mut v = Vec::new();
            if a0 < b0 {
                v.push((a0, b0 - 1));
            }
            if b1 < a1 {
                v.push((b1 + 1, a1));
            }
            assert(v@ =~= left_piece(a0, b0) + right_piece(a1, b1));
            v
        },
        GenomicRelation::Inside => vec![],
        GenomicRelation::Left => {
            let mut v = Vec::new();
            if a0 < b0 {
                v.push((a0, b0 - 1));
            }
            assert(v@ =~= left_piece(a0, b0));
            v
        },
        GenomicRelation::Right => {
            let mut v = Vec::new();
            if b1 < a1 {
                v.push((b1 + 1, a1));
            }
            assert(v@ =~= right_piece(a1, b1));
            v
        },
    };
    proof {
        if a0 <= a1 && b0 <= b1 {
            assert forall|x: int| a0 <= x <= a1 && !(b0 <= x <= b1) implies #[trigger] covered(r@, x) by {
                if r@.len() > 0 && r@[0].0 <= x <= r@[0].1 {
                } else {
                    assert(r@.len() > 1 && r@[1].0 <= x <= r@[1].1);
                }
            }
        }
    }
    r
}

/// The coding part of an exon: the overlap of the exon with the CDS, as a
/// pair of optional bounds that are both present or both absent.
pub fn exon_cds_overlap(exon_start: &u32, exon_end: &u32, cds_start: &u32, cds_end: &u32) -> (r: (
    Option<u32>,
    Option<u32>,
))
    ensures
        r == (match intersect_spec(*exon_start, *exon_end, *cds_start, *cds_end) {
            Some((x, y)) => (Some(x), Some(y)),
            None => (None::<u32>, None::<u32>),
        }),
{
    match intersect((exon_start, exon_end), (cds_start, cds_end)) {
        Some((x, y)) => (Some(x), Some(y)),
        None => (None, None),
    }
}

} // verus!
