//! The library's error types. Each carries a message for the user.
use vstd::prelude::*;
use crate::text::{joined, owned};

verus! {

/// A general error of the library.
#[derive(Debug)]
pub struct AtgError {
    pub message: String,
}

impl AtgError {
    pub fn new(s: &str) -> (r: Self)
        ensures
            r.message@ == s@,
    {
        AtgError { message: owned(s) }
    }

    /// The message shown to the user.
    pub fn to_string(&self) -> (r: String)
        ensures
            r@ == self.message@,
    {
        self.message.clone()
    }
}

/// Malformed GTF input.
#[derive(Debug)]
pub struct ParseGtfError {
    pub message: String,
}

impl ParseGtfError {
    pub fn new(s: &str) -> (r: Self)
        ensures
            r.message@ == s@,
    {
        ParseGtfError { message: owned(s) }
    }

    /// An error that adds `msg` in front of an earlier error.
    pub fn from_chain(err: ParseGtfError, msg: &str) -> (r: Self)
        ensures
            r.message@ == msg@ + "\nPrevious error: "@ + err.message@,
    {
        let head = joined(msg, "\nPrevious error: ");
        ParseGtfError { message: head.concat(err.message.as_str()) }
    }

    /// The message shown to the user.
    pub fn to_string(&self) -> (r: String)
        ensures
            r@ == "An error occurred while parsing the GTF input. Please check your input data.\n"@
                + self.message@,
    {
        joined(
            "An error occurred while parsing the GTF input. Please check your input data.\n",
            self.message.as_str(),
        )
    }
}

/// Malformed RefGene input.
#[derive(Debug)]
pub struct ParseRefGeneError {
    pub message: String,
}

impl ParseRefGeneError {
    pub fn new(s: &str) -> (r: Self)
        ensures
            r.message@ == s@,
    {
        ParseRefGeneError { message: owned(s) }
    }

    /// The message shown to the user.
    pub fn to_string(&self) -> (r: String)
        ensures
            r@ == "An error occurred while parsing the RefGene input. Please check your input data\n"@
                + self.message@,
    {
        joined(
            "An error occurred while parsing the RefGene input. Please check your input data\n",
            self.message.as_str(),
        )
    }
}

/// Malformed BED input.
#[derive(Debug)]
pub struct ParseBedError {
    pub message: String,
}

impl ParseBedError {
    pub fn new(s: &str) -> (r: Self)
        ensures
            r.message@ == s@,
    {
        ParseBedError { message: owned(s) }
    }
}

/// An exon without a coding sequence where one was needed.
#[derive(Debug)]
pub struct MissingCDSError;

impl MissingCDSError {
    /// The message shown to the user.
    pub fn to_string(&self) -> (r: String)
        ensures
            r@ == "the exon does not have a coding sequence!"@,
    {
        owned("the exon does not have a coding sequence!")
    }
}

/// A transcript could not be built.
#[derive(Debug)]
pub struct BuildTranscriptError {
    pub message: String,
}

impl BuildTranscriptError {
    pub fn new(s: &str) -> (r: Self)
        ensures
            r.message@ == s@,
    {
        BuildTranscriptError { message: owned(s) }
    }

    /// The message shown to the user.
    pub fn to_string(&self) -> (r: String)
        ensures
            r@ == "Unable to build the transcript: "@ + self.message@,
    {
        joined("Unable to build the transcript: ", self.message.as_str())
    }
}

/// A codon could not be built.
#[derive(Debug)]
pub struct BuildCodonError {
    pub message: String,
}

impl BuildCodonError {
    pub fn new(s: &str) -> (r: Self)
        ensures
            r.message@ == s@,
    {
        BuildCodonError { message: owned(s) }
    }

    /// The message shown to the user.
    pub fn to_string(&self) -> (r: String)
        ensures
            r@ == "unable to build a Codon: "@ + self.message@,
    {
        joined("unable to build a Codon: ", self.message.as_str())
    }
}

/// Reading or writing transcripts failed.
#[derive(Debug)]
pub struct ReadWriteError {
    pub message: String,
}

impl ReadWriteError {
    pub fn new(s: &str) -> (r: Self)
        ensures
            r.message@ == s@,
    {
        ReadWriteError { message: owned(s) }
    }

    /// The message shown to the user.
    pub fn to_string(&self) -> (r: String)
        ensures
            r@ == self.message@,
    {
        self.message.clone()
    }
}

/// Access to the reference sequence failed.
#[derive(Debug)]
pub struct FastaError {
    pub message: String,
}

impl FastaError {
    pub fn new(s: &str) -> (r: Self)
        ensures
            r.message@ == s@,
    {
        FastaError { message: owned(s) }
    }

    /// The message shown to the user.
    pub fn to_string(&self) -> (r: String)
        ensures
            r@ == self.message@,
    {
        self.message.clone()
    }
}

} // verus!
