use atg::exon::Exon;
use atg::formats::FastaFormat;
use atg::frame::Frame;
use atg::gtf::{compose_lines, GtfFeature, GtfRecordsGroup};
use atg::refgene::{genepred_line, genepredext_line, is_comment, refgene_line, split_columns};
use atg::relations::GenomicRelation;
use atg::status::{CdsStat, Strand};
use atg::transcript::{Transcript, TranscriptBuilder};
use atg::transcripts::Transcripts;

fn coding_transcript() -> Transcript {
    let mut t = TranscriptBuilder::new()
        .name("Tx")
        .chrom("chr1")
        .strand(Strand::Plus)
        .gene("Gene")
        .cds_start_stat(CdsStat::Complete)
        .cds_end_stat(CdsStat::Complete)
        .build()
        .unwrap();
    t.push_exon(Exon::new(11, 15, None, None, Frame::Unspecified));
    t.push_exon(Exon::new(21, 25, Some(23), Some(25), Frame::Zero));
    t.push_exon(Exon::new(31, 40, Some(31), Some(36), Frame::Two));
    t
}

#[test]
fn gtf_records_of_a_coding_transcript() {
    let t = coding_transcript();
    let lines = compose_lines(&t, "atg");
    let kinds: Vec<GtfFeature> = lines.iter().map(|l| *l.feature()).collect();
    assert_eq!(
        kinds,
        vec![
            GtfFeature::Transcript,
            GtfFeature::StartCodon,
            GtfFeature::StopCodon,
            GtfFeature::Exon,
            GtfFeature::UTR5,
            GtfFeature::Exon,
            GtfFeature::CDS,
            GtfFeature::UTR5,
            GtfFeature::Exon,
            GtfFeature::CDS,
            GtfFeature::UTR3,
        ]
    );
    assert_eq!((lines[0].start(), lines[0].end()), (11, 40));
    assert_eq!((lines[1].start(), lines[1].end()), (23, 25));
    assert_eq!((lines[2].start(), lines[2].end()), (34, 36));
    assert_eq!((lines[7].start(), lines[7].end()), (21, 22));
    assert_eq!((lines[9].start(), lines[9].end()), (31, 33));
    assert_eq!((lines[10].start(), lines[10].end()), (37, 40));
    assert_eq!(
        lines[6].to_string(),
        "chr1\tatg\tCDS\t23\t25\t.\t+\t0\tgene_id \"Gene\"; transcript_id \"Tx\"; gene_name \"Gene\"; exon_number \"2\"; exon_id \"Tx.2\";".to_string()
    );
    assert_eq!(
        lines[0].to_string(),
        "chr1\tatg\ttranscript\t11\t40\t.\t+\t.\tgene_id \"Gene\"; transcript_id \"Tx\"; gene_name \"Gene\";".to_string()
    );
}

#[test]
fn gtf_lines_read_back_into_the_same_transcript() {
    let t = coding_transcript();
    let lines = compose_lines(&t, "atg");
    let mut group = GtfRecordsGroup::new("Tx");
    for line in &lines {
        let text = line.to_string();
        let record = atg::gtf::GtfRecord::from_str(&text).unwrap();
        if *record.feature() != GtfFeature::Transcript {
            group.add_exon(record);
        }
    }
    let back = Transcript::try_from(group).unwrap();
    assert_eq!(back.exon_count(), 3);
    assert_eq!(back.cds_start(), Some(23));
    assert_eq!(back.cds_end(), Some(36));
    assert!(back == t);
}

#[test]
fn refgene_line_of_a_transcript() {
    let t = coding_transcript();
    let line = refgene_line(&t);
    assert_eq!(
        line,
        "0\tTx\tchr1\t+\t10\t40\t22\t36\t3\t10,20,30,\t15,25,40,\t0\tGene\tcmpl\tcmpl\t-1,0,1,".to_string()
    );
    let back = Transcript::from_refgene_line(&line).unwrap();
    assert!(back == t);
}

#[test]
fn genepredext_lines_have_no_bin() {
    let line = "Tx\tchr1\t+\t10\t40\t22\t36\t3\t10,20,30,\t15,25,40,\t0\tGene\tcmpl\tcmpl\t-1,0,1,";
    let t = Transcript::from_genepredext_line(line).unwrap();
    assert_eq!(*t.bin(), Some(0));
    assert!(t == coding_transcript());
    assert!(Transcript::from_refgene_line(line).is_err());
}

#[test]
fn columns_and_comments() {
    let cols = split_columns("  a\tb\t\tc \n");
    assert_eq!(cols, vec!["a", "b", "", "c"]);
    assert!(is_comment("#track"));
    assert!(!is_comment("chr1"));
}

#[test]
fn display_texts() {
    let t = coding_transcript();
    assert_eq!(t.to_string(), "[Gene] Tx (chr1:11-40)".to_string());
    assert_eq!(t.exons()[1].to_string(), "Exon (21-25) [23-25]".to_string());
    assert_eq!(t.exons()[0].to_string(), "Exon (11-15) [0-0]".to_string());
    assert_eq!(GenomicRelation::Right.to_string(), "light".to_string());
    assert_eq!(GenomicRelation::Inside.to_string(), "inside".to_string());
    assert_eq!(FastaFormat::Cds.as_str(), "cds");
    assert_eq!(Frame::Two.to_refgene(), "1".to_string());
    assert_eq!(Frame::Unspecified.to_gtf(), ".".to_string());
    assert_eq!(Strand::Minus.to_string(), "-".to_string());
    assert_eq!(CdsStat::Incomplete.to_string(), "incmpl".to_string());
    let g = GtfRecordsGroup::new("Tx");
    assert_eq!(g.to_string(), "GTFT Tx with 0 exons".to_string());
}

#[test]
fn transcripts_by_name_and_gene() {
    let mut ts = Transcripts::new();
    assert!(ts.is_empty());
    ts.push(coding_transcript());
    let mut other = coding_transcript();
    *other.strand_mut() = Strand::Minus;
    ts.push(other);
    assert_eq!(ts.len(), 2);
    assert_eq!(ts.by_name("Tx").len(), 2);
    assert_eq!(ts.by_name("Nope").len(), 0);
    assert_eq!(ts.by_gene("Gene").unwrap().len(), 2);
    assert!(ts.by_gene("Nope").is_none());
    assert_eq!(ts.by_name("Tx")[1].strand(), Strand::Minus);
    assert_eq!(ts.to_vec().len(), 2);
}

#[test]
fn transcript_equality_ignores_bin() {
    let a = coding_transcript();
    let mut b = coding_transcript();
    assert!(a == b);
    b.set_cds_end_stat(CdsStat::Incomplete);
    assert!(a != b);
}

#[test]
fn genepred_lines_of_a_transcript() {
    let t = coding_transcript();
    assert_eq!(
        genepredext_line(&t),
        "Tx\tchr1\t+\t10\t40\t22\t36\t3\t10,20,30,\t15,25,40,\t0\tGene\tcmpl\tcmpl\t-1,0,1,".to_string()
    );
    assert_eq!(
        genepred_line(&t),
        "Tx\tchr1\t+\t10\t40\t22\t36\t3\t10,20,30,\t15,25,40,".to_string()
    );
    let back = Transcript::from_genepredext_line(&genepredext_line(&t)).unwrap();
    assert!(back == t);
}

#[test]
fn refgene_line_of_a_non_coding_transcript() {
    let mut t = TranscriptBuilder::new()
        .bin(Some(7))
        .name("NR")
        .chrom("chr2")
        .strand(Strand::Minus)
        .gene("G")
        .build()
        .unwrap();
    t.push_exon(Exon::new(5, 9, None, None, Frame::Unspecified));
    assert_eq!(
        refgene_line(&t),
        "7\tNR\tchr2\t-\t4\t9\t9\t9\t1\t4,\t9,\t0\tG\tnone\tnone\t-1,".to_string()
    );
}

#[test]
fn bed_line_of_a_transcript() {
    let t = coding_transcript();
    let line = atg::bed::BedLine::from_transcript(&t);
    assert_eq!(
        line.to_string(),
        "chr1\t10\t40\tGene:Tx\t\t+\t22\t36\t212,16,48\t3\t5,5,10\t0,10,20".to_string()
    );
    let exon = Exon::new(21, 25, Some(23), Some(25), Frame::Zero);
    let mut e = atg::bed::BedLine::from_exon(exon, "chr1");
    *e.name_mut() = Some("x".to_string());
    assert_eq!(e.to_string(), "chr1\t21\t25\tx\t\t\t23\t25\t212,16,48\t\t\t".to_string());
}
