//! Genomic transcript models: exons, reading frames, codons, transcripts,
//! the merging of annotation fragments into exons, and indexed access to a
//! line-wrapped reference sequence.
pub mod attributes;
pub mod bed;
pub mod codon;
pub mod errors;
pub mod exon;
pub mod fasta;
pub mod formats;
pub mod frame;
pub mod gtf;
pub mod refgene;
pub mod relations;
pub mod sequence;
pub mod status;
pub mod text;
pub mod transcript;
pub mod transcripts;
