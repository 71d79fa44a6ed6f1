//! The reading-frame offset of an exon.
use vstd::prelude::*;
use crate::text::{joined, owned, str_eq};

verus! {

/// The reading-frame offset of an exon, as GTF numbers it: how many bases
/// precede the first whole codon at the exon's coding start.
///
/// RefGene numbers `One` and `Two` the other way round; see
/// [`Frame::from_refgene`] and [`Frame::to_refgene`].
#[derive(Clone, Copy, Debug, PartialEq, Eq, Structural)]
pub enum Frame {
    /// No frame, as for non-coding exons.
    Unspecified,
    Zero,
    One,
    Two,
}

/// The frame of an offset that is taken modulo 3.
pub open spec fn frame_of(n: int) -> Frame {
    if n % 3 == 0 {
        Frame::Zero
    } else if n % 3 == 1 {
        Frame::One
    } else {
        Frame::Two
    }
}

/// The GTF token of each frame.
pub open spec fn gtf_token(f: Frame) -> Seq<char> {
    match f {
        Frame::Unspecified => "."@,
        Frame::Zero => "0"@,
        Frame::One => "1"@,
        Frame::Two => "2"@,
    }
}

/// The RefGene token of each frame.
pub open spec fn refgene_token(f: Frame) -> Seq<char> {
    match f {
        Frame::Unspecified => "-1"@,
        Frame::Zero => "0"@,
        Frame::One => "2"@,
        Frame::Two => "1"@,
    }
}

/// The frame that a GTF token stands for.
pub open spec fn gtf_frame(s: Seq<char>) -> Option<Frame> {
    if s == "-1"@ || s == "."@ {
        Some(Frame::Unspecified)
    } else if s == "0"@ {
        Some(Frame::Zero)
    } else if s == "1"@ {
        Some(Frame::One)
    } else if s == "2"@ {
        Some(Frame::Two)
    } else {
        None
    }
}

/// The frame that a RefGene token stands for.
pub open spec fn refgene_frame(s: Seq<char>) -> Option<Frame> {
    if s == "-1"@ || s == "."@ {
        Some(Frame::Unspecified)
    } else if s == "0"@ {
        Some(Frame::Zero)
    } else if s == "1"@ {
        Some(Frame::Two)
    } else if s == "2"@ {
        Some(Frame::One)
    } else {
        None
    }
}

/// The message of a token that names no frame.
pub open spec fn invalid_frame_message(s: Seq<char>) -> Seq<char> {
    "invalid frame indicator "@ + s
}

/// The result of a parse of a frame token.
pub open spec fn parsed_frame(parsed: Option<Frame>, s: Seq<char>, r: Result<Frame, String>) -> bool {
    match parsed {
        Some(f) => r == Ok::<Frame, String>(f),
        None => r is Err && r->Err_0@ == invalid_frame_message(s),
    }
}

impl Frame {
    /// The offset as a number, for the known frames.
    pub open spec fn offset(self) -> Option<int> {
        match self {
            Frame::Zero => Some(0),
            Frame::One => Some(1),
            Frame::Two => Some(2),
            Frame::Unspecified => None,
        }
    }

    /// The sum of two frames: modulo 3 where both are known, the known one
    /// where only one is, and nothing where neither is.
    pub open spec fn sum(self, other: Frame) -> Option<Frame> {
        match (self.offset(), other.offset()) {
            (Some(x), Some(y)) => Some(frame_of(x + y)),
            (Some(_), None) => Some(self),
            (None, Some(_)) => Some(other),
            (None, None) => None,
        }
    }

    /// The frame of an integer offset, taken modulo 3.
    pub fn from_int(s: u32) -> (r: Result<Frame, String>)
        ensures
            r == Ok::<Frame, String>(frame_of(s as int)),
    {
        let m = s % 3;
        if m == 0 {
            Ok(Frame::Zero)
        } else if m == 1 {
            Ok(Frame::One)
        } else {
            Ok(Frame::Two)
        }
    }

    /// Parses a GTF frame token: `-1`, `.`, `0`, `1` or `2`.
    pub fn from_gtf(s: &str) -> (r: Result<Frame, String>)
        ensures
            parsed_frame(gtf_frame(s@), s@, r),
    {
        if str_eq(s, "-1") || str_eq(s, ".") {
            Ok(Frame::Unspecified)
        } else if str_eq(s, "0") {
            Ok(Frame::Zero)
        } else if str_eq(s, "1") {
            Ok(Frame::One)
        } else if str_eq(s, "2") {
            Ok(Frame::Two)
        } else {
            Err(joined("invalid frame indicator ", s))
        }
    }

    /// Parses a GTF frame token, as [`Frame::from_gtf`] does.
    pub fn from_str(s: &str) -> (r: Result<Frame, String>)
        ensures
            parsed_frame(gtf_frame(s@), s@, r),
    {
        Frame::from_gtf(s)
    }

    /// Parses a RefGene frame token, where `1` and `2` are swapped relative
    /// to GTF.
    pub fn from_refgene(s: &str) -> (r: Result<Frame, String>)
        ensures
            parsed_frame(refgene_frame(s@), s@, r),
    {
        if str_eq(s, "-1") || str_eq(s, ".") {
            Ok(Frame::Unspecified)
        } else if str_eq(s, "0") {
            Ok(Frame::Zero)
        } else if str_eq(s, "1") {
            Ok(Frame::Two)
        } else if str_eq(s, "2") {
            Ok(Frame::One)
        } else {
            Err(joined("invalid frame indicator ", s))
        }
    }

    /// The GTF token of the frame.
    pub fn to_gtf(&self) -> (r: String)
        ensures
            r@ == gtf_token(*self),
    {
        match self {
            Frame::Unspecified => owned("."),
            Frame::Zero => owned("0"),
            Frame::One => owned("1"),
            Frame::Two => owned("2"),
        }
    }

    /// The GTF token of the frame, as [`Frame::to_gtf`] gives it.
    pub fn to_string(&self) -> (r: String)
        ensures
            r@ == gtf_token(*self),
    {
        self.to_gtf()
    }

    /// The RefGene token of the frame.
    pub fn to_refgene(&self) -> (r: String)
        ensures
            r@ == refgene_token(*self),
    {
        match self {
            Frame::Zero => owned("0"),
            Frame::One => owned("2"),
            Frame::Two => owned("1"),
            Frame::Unspecified => owned("-1"),
        }
    }

    /// `true` for the frames 0, 1 and 2.
    pub fn is_known(&self) -> (r: bool)
        ensures
            r == self.offset().is_some(),
    {
        match self {
            Frame::Unspecified => false,
            _ => true,
        }
    }

    fn to_int(self) -> (r: Option<u32>)
        ensures
            r.is_some() == self.offset().is_some(),
            r.is_some() ==> r.unwrap() as int == self.offset().unwrap(),
    {
        match self {
            Frame::Zero => Some(0),
            Frame::One => Some(1),
            Frame::Two => Some(2),
            Frame::Unspecified => None,
        }
    }

    /// Adds two frames (see [`Frame::sum`]); fails where neither is known.
    pub fn add(self, other: Frame) -> (r: Result<Frame, String>)
        ensures
            match self.sum(other) {
                Some(f) => r == Ok::<Frame, String>(f),
                None => r is Err && r->Err_0@ == "unable to add two unspecified frames"@,
            },
    {
        match (self.to_int(), other.to_int()) {
            (Some(x), Some(y)) => Frame::from_int((x + y) % 3),
            (Some(_), None) => Ok(self),
            (None, Some(_)) => Ok(other),
            (None, None) => Err(owned("unable to add two unspecified frames")),
        }
    }
}

/// The sum of two frames does not depend on their order.
pub proof fn lemma_frame_sum_commutative(a: Frame, b: Frame)
    ensures
        a.sum(b) == b.sum(a),
{
}

/// On known frames the sum is associative: it adds the offsets modulo 3.
pub proof fn lemma_frame_sum_associative(a: Frame, b: Frame, c: Frame)
    requires
        a.offset().is_some(),
        b.offset().is_some(),
        c.offset().is_some(),
    ensures
        a.sum(b).is_some(),
        b.sum(c).is_some(),
        a.sum(b).unwrap().sum(c) == a.sum(b.sum(c).unwrap()),
        a.sum(b).unwrap().sum(c) == Some(
            frame_of(a.offset().unwrap() + b.offset().unwrap() + c.offset().unwrap()),
        ),
{
}

proof fn lemma_frame_tokens_distinct()
    ensures
        "-1"@ != "."@,
        "-1"@ != "0"@,
        "-1"@ != "1"@,
        "-1"@ != "2"@,
        "."@ != "0"@,
        "."@ != "1"@,
        "."@ != "2"@,
        "0"@ != "1"@,
        "0"@ != "2"@,
        "1"@ != "2"@,
{
    reveal_strlit("-1");
    reveal_strlit(".");
    reveal_strlit("0");
    reveal_strlit("1");
    reveal_strlit("2");
    assert("-1"@.len() == 2);
    assert("."@[0] != "0"@[0]);
    assert("."@[0] != "1"@[0]);
    assert("."@[0] != "2"@[0]);
    assert("0"@[0] != "1"@[0]);
    assert("0"@[0] != "2"@[0]);
    assert("1"@[0] != "2"@[0]);
}

/// A GTF token read back gives the frame it was written from.
pub proof fn lemma_gtf_token_round_trip(f: Frame)
    ensures
        gtf_frame(gtf_token(f)) == Some(f),
{
    lemma_frame_tokens_distinct();
}

/// A RefGene token read back gives the frame it was written from.
pub proof fn lemma_refgene_token_round_trip(f: Frame)
    ensures
        refgene_frame(refgene_token(f)) == Some(f),
{
    lemma_frame_tokens_distinct();
}

} // verus!
