use atg::exon::Exon;
use atg::fasta::{ChromosomeIndex, FastaIndex, FastaReader};
use atg::formats::FastaFormat;
use atg::frame::Frame;
use atg::status::Strand;
use atg::transcript::TranscriptBuilder;

const FAI: &str = "chr1\t201\t6\t50\t51\nchr2\t234\t218\t50\t51\nchr3\t192\t463\t50\t51\nchr4\t149\t665\t50\t51\nchr5\t150\t823\t50\t51\n";

/// A contig of `bases` bases, `A` except where `parts` (1-based start,
/// bases) say otherwise.
fn contig(bases: usize, parts: &[(usize, &str)]) -> Vec<u8> {
    let mut seq = vec![b'A'; bases];
    for (start, text) in parts {
        for (k, b) in text.bytes().enumerate() {
            seq[start - 1 + k] = b;
        }
    }
    seq
}

/// The reference file: each contig under its header, 50 bases per line.
fn fasta_bytes() -> Vec<u8> {
    let contigs = vec![
        ("chr1", contig(201, &[(1, "GCCTCAGAGG"), (51, "AGG"), (198, "GATG")])),
        ("chr2", contig(234, &[(55, "TCTCAT")])),
        ("chr3", contig(192, &[])),
        ("chr4", contig(149, &[(75, "GCACACCTCCTGCTTCTAACAGCAGAGCTGCCAGGC"), (148, "TA")])),
        ("chr5", contig(150, &[(101, "TGACCTGCAGGGTCGAGGAGTTGACGGTGCTGAGTTCCCTGCACTCTCAG")])),
    ];
    let mut out = vec![];
    for (name, seq) in contigs {
        out.push(b'>');
        out.extend_from_slice(name.as_bytes());
        out.push(b'\n');
        for line in seq.chunks(50) {
            out.extend_from_slice(line);
            out.push(b'\n');
        }
    }
    out
}

fn check_fai_reading() {
    let fai = FastaIndex::new(FAI).unwrap();
    assert_eq!(fai.offset("chr1", 1).unwrap(), 6);
    assert_eq!(fai.offset("chr1", 50).unwrap(), 55);
    assert_eq!(fai.offset("chr1", 51).unwrap(), 57);
    assert_eq!(fai.offset("chr1", 100).unwrap(), 106);
    assert_eq!(fai.offset("chr1", 101).unwrap(), 108);
    assert_eq!(fai.offset("chr1", 150).unwrap(), 157);
    assert_eq!(fai.offset("chr1", 151).unwrap(), 159);
    assert_eq!(fai.offset("chr2", 1).unwrap(), 218);
}

#[test]
fn reader_test_fai_reading() {
    check_fai_reading();
}

#[test]
fn fastareader_test_fai_reading() {
    check_fai_reading();
}

#[test]
fn test_fai_errors() {
    let fai = FastaIndex::new(FAI).unwrap();
    assert_eq!(
        fai.offset("chr6", 1).unwrap_err().to_string(),
        "index for chr6 does not exist".to_string()
    );
    assert_eq!(
        fai.offset("chr1", 202).unwrap_err().to_string(),
        "position 202 is greater than chromome length 201".to_string()
    );
    assert_eq!(
        fai.offset("chr2", 235).unwrap_err().to_string(),
        "position 235 is greater than chromome length 234".to_string()
    );
    assert_eq!(
        fai.offset("chr3", 193).unwrap_err().to_string(),
        "position 193 is greater than chromome length 192".to_string()
    );
    assert_eq!(
        fai.offset("chr4", 150).unwrap_err().to_string(),
        "position 150 is greater than chromome length 149".to_string()
    );
    assert_eq!(
        fai.offset("chr5", 151).unwrap_err().to_string(),
        "position 151 is greater than chromome length 150".to_string()
    );
}

fn check_fasta_reading(all: bool) {
    let fasta = FastaReader::new(fasta_bytes(), FAI).unwrap();
    let seq = fasta.read_sequence("chr1", 1, 10).unwrap();
    assert_eq!(&seq.to_string(), "GCCTCAGAGG");
    let seq = fasta.read_sequence("chr1", 51, 53).unwrap();
    assert_eq!(&seq.to_string(), "AGG");
    let seq = fasta.read_sequence("chr2", 55, 60).unwrap();
    assert_eq!(&seq.to_string(), "TCTCAT");
    let seq = fasta.read_sequence("chr4", 75, 110).unwrap();
    assert_eq!(&seq.to_string(), "GCACACCTCCTGCTTCTAACAGCAGAGCTGCCAGGC");
    if !all {
        return;
    }
    let seq = fasta.read_sequence("chr1", 201, 201).unwrap();
    assert_eq!(&seq.to_string(), "G");
    let seq = fasta.read_sequence("chr1", 198, 201).unwrap();
    assert_eq!(&seq.to_string(), "GATG");
    let seq = fasta.read_sequence("chr4", 148, 149).unwrap();
    assert_eq!(&seq.to_string(), "TA");
    let seq = fasta.read_sequence("chr5", 101, 150).unwrap();
    assert_eq!(
        &seq.to_string(),
        "TGACCTGCAGGGTCGAGGAGTTGACGGTGCTGAGTTCCCTGCACTCTCAG"
    );
    let seq = fasta.read_sequence("chr5", 150, 150).unwrap();
    assert_eq!(&seq.to_string(), "G");
    let seq = fasta.read_sequence("chr5", 1, 150).unwrap();
    assert_eq!(seq.len(), 150);
}

#[test]
fn reader_test_fasta_reading() {
    check_fasta_reading(true);
}

#[test]
fn fastareader_test_fasta_reading() {
    check_fasta_reading(false);
}

#[test]
fn offsets_increase_within_a_contig() {
    let fai = FastaIndex::new(FAI).unwrap();
    let mut last = fai.offset("chr2", 1).unwrap();
    for pos in 2..=234u64 {
        let next = fai.offset("chr2", pos).unwrap();
        assert!(next > last);
        last = next;
    }
    assert!(fai.offset("chr2", 235).is_err());
}

#[test]
fn offset_range_ends_after_last_base() {
    let fai = FastaIndex::new(FAI).unwrap();
    assert_eq!(fai.offset_range("chr1", 50, 51).unwrap(), (55, 58));
    assert!(fai.offset_range("chr1", 1, 202).is_err());
}

#[test]
fn index_lines_need_five_columns() {
    let err = ChromosomeIndex::new("chr1\t201\t6\t50").unwrap_err();
    assert_eq!(err.to_string(), "expected 5 columns but received 4".to_string());
    assert!(ChromosomeIndex::new("chr1\t201\t6\t50\t51\t9").is_err());
    assert!(ChromosomeIndex::new("chr1\t2x1\t6\t50\t51").is_err());
    assert!(ChromosomeIndex::new("chr1\t201\t6\t0\t51").is_err());
    let c = ChromosomeIndex::new("chrX\t10\t7\t4\t5").unwrap();
    assert_eq!(c.name(), "chrX");
    assert_eq!(c.offset(5).unwrap(), 12);
    assert!(FastaIndex::new("chr1\t201\t6\t50\n").is_err());
}

#[test]
fn later_index_lines_replace_earlier_ones() {
    let fai = FastaIndex::new("chr1\t10\t6\t5\t6\r\nchr1\t20\t100\t10\t11\n").unwrap();
    assert_eq!(fai.offset("chr1", 1).unwrap(), 100);
    assert!(fai.offset("Chr1", 1).is_err());
}

#[test]
fn reading_past_the_file_fails() {
    let fasta = FastaReader::new(b">chr1\nACGT\n".to_vec(), "chr1\t8\t6\t4\t5").unwrap();
    assert_eq!(fasta.read_range("chr1", 1, 4).unwrap(), b"ACGT".to_vec());
    assert!(fasta.read_range("chr1", 5, 8).is_err());
}

#[test]
fn reading_a_bad_byte_fails() {
    let fasta = FastaReader::new(b">chr1\nAC-T\n".to_vec(), "chr1\t4\t6\t4\t5").unwrap();
    assert!(fasta.read_sequence("chr1", 1, 4).is_err());
    assert_eq!(fasta.read_sequence("chr1", 1, 2).unwrap().to_string(), "AC".to_string());
}

#[test]
fn transcript_sequences_follow_the_strand() {
    let fasta = FastaReader::new(b">c\nAACCGGTTAC\nGTACGTAAAA\n".to_vec(), "c\t20\t3\t10\t11\n").unwrap();
    let mut t = TranscriptBuilder::new().name("T").chrom("c").gene("G").strand(Strand::Plus).build().unwrap();
    t.push_exon(Exon::new(2, 4, Some(3), Some(4), Frame::Zero));
    t.push_exon(Exon::new(9, 12, Some(9), Some(11), Frame::Zero));
    let cds = fasta.transcript_sequence(&t, FastaFormat::Cds).unwrap();
    assert_eq!(cds.to_string(), "CCACG".to_string());
    let exons = fasta.transcript_sequence(&t, FastaFormat::Exons).unwrap();
    assert_eq!(exons.to_string(), "ACCACGT".to_string());
    let whole = fasta.transcript_sequence(&t, FastaFormat::Transcript).unwrap();
    assert_eq!(whole.to_string(), "ACCGGTTACGT".to_string());
    *t.strand_mut() = Strand::Minus;
    let cds = fasta.transcript_sequence(&t, FastaFormat::Cds).unwrap();
    assert_eq!(cds.to_string(), "CGTGG".to_string());
    let mut t2 = TranscriptBuilder::new().name("T").chrom("x").gene("G").strand(Strand::Plus).build().unwrap();
    t2.push_exon(Exon::new(2, 4, None, None, Frame::Unspecified));
    assert!(fasta.transcript_sequence(&t2, FastaFormat::Exons).is_err());
}

#[test]
fn feature_sequences_left_to_right() {
    let fasta = FastaReader::new(b">c\nAACCGGTTAC\nGTACGTAAAA\n".to_vec(), "c\t20\t3\t10\t11\n").unwrap();
    let mut t = TranscriptBuilder::new().name("T").chrom("c").gene("G").strand(Strand::Plus).build().unwrap();
    t.push_exon(Exon::new(2, 4, Some(3), Some(4), Frame::Zero));
    t.push_exon(Exon::new(9, 12, Some(9), Some(11), Frame::Zero));
    let f = fasta.feature_sequences(&t).unwrap();
    let kinds: Vec<&str> = f.iter().map(|x| x.0.as_str()).collect();
    assert_eq!(kinds, vec!["5UTR", "CDS", "CDS", "3UTR"]);
    assert_eq!((f[0].1, f[0].2, f[0].3.to_string()), (2, 2, "A".to_string()));
    assert_eq!((f[3].1, f[3].2, f[3].3.to_string()), (12, 12, "T".to_string()));
    *t.strand_mut() = Strand::Minus;
    let f = fasta.feature_sequences(&t).unwrap();
    let kinds: Vec<&str> = f.iter().map(|x| x.0.as_str()).collect();
    assert_eq!(kinds, vec!["3UTR", "CDS", "CDS", "5UTR"]);
    assert_eq!((f[0].1, f[0].2, f[0].3.to_string()), (2, 2, "T".to_string()));
    assert_eq!(f[1].3.to_string(), "GG".to_string());
}
