//! The file formats that transcripts are read from and written to.
use vstd::prelude::*;

verus! {

/// What the sequence of a transcript covers.
#[derive(Clone, Copy, Debug, PartialEq, Eq, Structural)]
pub enum FastaFormat {
    /// The full genomic sequence, introns included.
    Transcript,
    /// All exons.
    Exons,
    /// The coding sequence.
    Cds,
}

impl FastaFormat {
    /// The name of the format.
    pub fn as_str(&self) -> (r: &str)
        ensures
            r@ == match self {
                FastaFormat::Transcript => "transcript"@,
                FastaFormat::Exons => "exons"@,
                FastaFormat::Cds => "cds"@,
            },
    {
        match self {
            FastaFormat::Transcript => "transcript",
            FastaFormat::Exons => "exons",
            FastaFormat::Cds => "cds",
        }
    }
}

/// The formats that transcripts are read from.
#[derive(Clone, Copy, Debug, PartialEq, Eq, Structural)]
pub enum InputFormat {
    Gtf,
    Refgene,
    Genepredext,
    Bin,
}

/// The formats that transcripts are written to.
#[derive(Clone, Copy, Debug, PartialEq, Eq, Structural)]
pub enum OutputFormat {
    Gtf,
    Refgene,
    Genepred,
    Genepredext,
    Bed,
    Fasta,
    FastaSplit,
    FeatureSequence,
    Spliceai,
    Bin,
    Qc,
    /// No output.
    NoOutput,
    Raw,
}

} // verus!
