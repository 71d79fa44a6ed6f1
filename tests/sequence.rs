use atg::sequence::{Nucleotide, Sequence};

#[test]
fn test_create_sequence() {
    let s = "ATCGACGATCGATCGATGAGCGATCGACGATCGCGCTATCGCTA";
    let seq = Sequence::from_str(&s).unwrap();
    assert_eq!(seq.len(), 44);
    assert_eq!(seq.to_string(), s.to_string())
}

#[test]
fn raw_bytes_drop_line_terminators() {
    let seq = Sequence::from_raw_bytes(b"A\nC\r\nGT", 2).unwrap();
    assert_eq!(seq.len(), 4);
    assert_eq!(seq.to_string(), "ACGT".to_string());
}

#[test]
fn raw_bytes_reject_other_bytes() {
    assert!(Sequence::from_raw_bytes(b"AC-GT", 5).is_err());
    assert!(Sequence::from_raw_bytes(b"ACxGT", 5).is_err());
}

#[test]
fn lower_case_bases_are_read() {
    let seq = Sequence::from_raw_bytes(b"acgtn", 5).unwrap();
    assert_eq!(seq.to_string(), "ACGTN".to_string());
    assert_eq!(seq.to_bytes(), b"ACGTN".to_vec());
}

#[test]
fn text_with_other_characters_is_rejected() {
    assert!(Sequence::from_str("ACGU").is_err());
    assert!(Sequence::from_str("AC\nGT").is_err());
}

#[test]
fn reverse_complement_of_known_sequence() {
    let mut seq = Sequence::from_str("AACGTN").unwrap();
    seq.reverse_complement();
    assert_eq!(seq.to_string(), "NACGTT".to_string());
    let mut seq = Sequence::from_str("ATGC").unwrap();
    seq.reverse();
    assert_eq!(seq.to_string(), "CGTA".to_string());
    seq.complement();
    assert_eq!(seq.to_string(), "GCAT".to_string());
}

#[test]
fn reverse_complement_twice_is_identity() {
    let text = "GATTACANNCGT";
    let mut seq = Sequence::from_str(text).unwrap();
    seq.reverse_complement();
    assert_ne!(seq.to_string(), text.to_string());
    seq.reverse_complement();
    assert_eq!(seq.to_string(), text.to_string());
}

#[test]
fn nucleotide_complements() {
    assert_eq!(Nucleotide::A.complement(), Nucleotide::T);
    assert_eq!(Nucleotide::C.complement(), Nucleotide::G);
    assert_eq!(Nucleotide::N.complement(), Nucleotide::N);
    assert_eq!(Nucleotide::new(&'g').unwrap(), Nucleotide::G);
    assert!(Nucleotide::new(&'x').is_err());
    assert_eq!(Nucleotide::T.to_bytes(), b'T');
}

#[test]
fn push_and_append() {
    let mut a = Sequence::new();
    assert!(a.is_empty());
    a.push(Nucleotide::A).unwrap();
    a.push_char(&'c').unwrap();
    assert!(a.push_char(&'\n').is_err());
    let b = Sequence::from_str("GT").unwrap();
    a.append(b);
    assert_eq!(a.to_string(), "ACGT".to_string());
}

#[test]
fn nucleotide_from_text() {
    assert_eq!(Nucleotide::from_str("a").unwrap(), Nucleotide::A);
    assert_eq!(Nucleotide::from_str("N").unwrap(), Nucleotide::N);
    assert!(Nucleotide::from_str("AC").is_err());
    assert!(Nucleotide::from_str("").is_err());
    assert!(Nucleotide::from_str("u").is_err());
}

#[test]
fn error_messages() {
    use_errors();
}

fn use_errors() {
    let e = atg::errors::AtgError::new("boom");
    assert_eq!(e.to_string(), "boom".to_string());
    let e = atg::errors::ParseBedError::new("bad bed");
    assert_eq!(e.message, "bad bed".to_string());
    assert_eq!(
        atg::errors::MissingCDSError.to_string(),
        "the exon does not have a coding sequence!".to_string()
    );
    let e = atg::errors::ParseRefGeneError::new("x");
    assert_eq!(
        e.to_string(),
        "An error occurred while parsing the RefGene input. Please check your input data\nx".to_string()
    );
    let e = atg::errors::ParseGtfError::from_chain(atg::errors::ParseGtfError::new("inner"), "outer");
    assert_eq!(e.message, "outer\nPrevious error: inner".to_string());
    let e = atg::errors::BuildTranscriptError::new("No name specified");
    assert_eq!(e.to_string(), "Unable to build the transcript: No name specified".to_string());
    let e = atg::errors::ReadWriteError::new("rw");
    assert_eq!(e.to_string(), "rw".to_string());
    let e = atg::errors::FastaError::new("fa");
    assert_eq!(e.to_string(), "fa".to_string());
}
