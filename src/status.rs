//! Strand and CDS-completeness status of a transcript.
use vstd::prelude::*;
use crate::text::{joined, owned, str_eq};

verus! {

/// The completeness of one end of a coding sequence.
#[derive(Clone, Copy, Debug, PartialEq, Eq, Structural)]
pub enum CdsStat {
    /// No status, written `none`.
    NoStat,
    Unknown,
    Incomplete,
    Complete,
}

/// The strand of a transcript.
#[derive(Clone, Copy, Debug, PartialEq, Eq, Structural)]
pub enum Strand {
    Plus,
    Minus,
    Unknown,
}

/// The status that a RefGene token stands for.
pub open spec fn cds_stat_of(s: Seq<char>) -> Option<CdsStat> {
    if s == "incmpl"@ || s == "incompl"@ || s == "incomplete"@ {
        Some(CdsStat::Incomplete)
    } else if s == "cmpl"@ || s == "compl"@ || s == "complete"@ {
        Some(CdsStat::Complete)
    } else if s == "none"@ {
        Some(CdsStat::NoStat)
    } else if s == "unk"@ {
        Some(CdsStat::Unknown)
    } else {
        None
    }
}

/// The token of each status.
pub open spec fn cds_stat_token(c: CdsStat) -> Seq<char> {
    match c {
        CdsStat::NoStat => "none"@,
        CdsStat::Unknown => "unk"@,
        CdsStat::Incomplete => "incmpl"@,
        CdsStat::Complete => "cmpl"@,
    }
}

/// The strand that a token stands for.
pub open spec fn strand_of(s: Seq<char>) -> Option<Strand> {
    if s == "+"@ {
        Some(Strand::Plus)
    } else if s == "-"@ {
        Some(Strand::Minus)
    } else if s == "."@ {
        Some(Strand::Unknown)
    } else {
        None
    }
}

/// The token of each strand.
pub open spec fn strand_token(s: Strand) -> Seq<char> {
    match s {
        Strand::Plus => "+"@,
        Strand::Minus => "-"@,
        Strand::Unknown => "."@,
    }
}

impl CdsStat {
    /// Parses a status token (`none`, `unk`, `incmpl`, `cmpl` and their
    /// long forms).
    pub fn from_str(s: &str) -> (r: Result<CdsStat, String>)
        ensures
            match cds_stat_of(s@) {
                Some(c) => r == Ok::<CdsStat, String>(c),
                None => r is Err && r->Err_0@ == "Invaid CdsStat "@ + s@ + "."@,
            },
    {
        if str_eq(s, "incmpl") || str_eq(s, "incompl") || str_eq(s, "incomplete") {
            Ok(CdsStat::Incomplete)
        } else if str_eq(s, "cmpl") || str_eq(s, "compl") || str_eq(s, "complete") {
            Ok(CdsStat::Complete)
        } else if str_eq(s, "none") {
            Ok(CdsStat::NoStat)
        } else if str_eq(s, "unk") {
            Ok(CdsStat::Unknown)
        } else {
            let m = joined("Invaid CdsStat ", s);
            Err(m.concat("."))
        }
    }

    /// The token of the status.
    pub fn to_string(&self) -> (r: String)
        ensures
            r@ == cds_stat_token(*self),
    {
        match self {
            CdsStat::NoStat => owned("none"),
            CdsStat::Unknown => owned("unk"),
            CdsStat::Incomplete => owned("incmpl"),
            CdsStat::Complete => owned("cmpl"),
        }
    }
}

impl Strand {
    /// Parses a strand token: `+`, `-` or `.`.
    pub fn from_string(s: &str) -> (r: Result<Strand, String>)
        ensures
            match strand_of(s@) {
                Some(x) => r == Ok::<Strand, String>(x),
                None => r is Err && r->Err_0@ == "invalid strand "@ + s@
                    + ". Strand must be either `+`, `-` or `.`."@,
            },
    {
        Strand::from_str(s)
    }

    /// Parses a strand token, as [`Strand::from_string`] does.
    pub fn from_str(s: &str) -> (r: Result<Strand, String>)
        ensures
            match strand_of(s@) {
                Some(x) => r == Ok::<Strand, String>(x),
                None => r is Err && r->Err_0@ == "invalid strand "@ + s@
                    + ". Strand must be either `+`, `-` or `.`."@,
            },
    {
        if str_eq(s, "+") {
            Ok(Strand::Plus)
        } else if str_eq(s, "-") {
            Ok(Strand::Minus)
        } else if str_eq(s, ".") {
            Ok(Strand::Unknown)
        } else {
            let m = joined("invalid strand ", s);
            Err(m.concat(". Strand must be either `+`, `-` or `.`."))
        }
    }

    /// The token of the strand.
    pub fn to_string(&self) -> (r: String)
        ensures
            r@ == strand_token(*self),
    {
        match self {
            Strand::Plus => owned("+"),
            Strand::Minus => owned("-"),
            Strand::Unknown => owned("."),
        }
    }
}

} // verus!
