use atg::frame::Frame;
use atg::gtf::{GtfFeature, GtfRecord, GtfRecordBuilder, GtfRecordsGroup};
use atg::status::{CdsStat, Strand};
use atg::transcript::Transcript;

fn record(feature: GtfFeature, start: u32, end: u32, strand: Strand, frame: Frame) -> GtfRecord {
    GtfRecordBuilder::new()
        .chrom("chr1")
        .source("test")
        .feature(feature)
        .start(start)
        .end(end)
        .strand(strand)
        .frame_offset(frame)
        .gene("Gene")
        .transcript("Tx")
        .build()
        .unwrap()
}

#[test]
fn book_ended_fragments_merge() {
    let mut group = GtfRecordsGroup::new("Tx");
    group.add_exon(record(GtfFeature::Exon, 21, 30, Strand::Plus, Frame::Unspecified));
    group.add_exon(record(GtfFeature::Exon, 10, 20, Strand::Plus, Frame::Unspecified));
    let exons = group.exons();
    assert_eq!(exons.len(), 1);
    assert_eq!(exons[0].start(), 10);
    assert_eq!(exons[0].end(), 30);
}

#[test]
fn separated_fragments_stay_apart() {
    let mut group = GtfRecordsGroup::new("Tx");
    group.add_exon(record(GtfFeature::Exon, 22, 30, Strand::Plus, Frame::Unspecified));
    group.add_exon(record(GtfFeature::Exon, 10, 20, Strand::Plus, Frame::Unspecified));
    let exons = group.exons();
    assert_eq!(exons.len(), 2);
    assert_eq!((exons[0].start(), exons[0].end()), (10, 20));
    assert_eq!((exons[1].start(), exons[1].end()), (22, 30));
}

#[test]
fn cds_and_codons_set_the_coding_bounds() {
    let mut group = GtfRecordsGroup::new("Tx");
    group.add_exon(record(GtfFeature::Exon, 100, 200, Strand::Plus, Frame::Unspecified));
    group.add_exon(record(GtfFeature::CDS, 150, 200, Strand::Plus, Frame::Zero));
    group.add_exon(record(GtfFeature::StartCodon, 150, 152, Strand::Plus, Frame::Zero));
    group.add_exon(record(GtfFeature::Exon, 300, 400, Strand::Plus, Frame::Unspecified));
    group.add_exon(record(GtfFeature::CDS, 300, 349, Strand::Plus, Frame::One));
    group.add_exon(record(GtfFeature::StopCodon, 350, 352, Strand::Plus, Frame::Zero));
    let t = Transcript::try_from(group).unwrap();
    assert_eq!(t.name(), "Tx");
    assert_eq!(t.gene(), "Gene");
    assert_eq!(t.chrom(), "chr1");
    assert_eq!(t.strand(), Strand::Plus);
    assert_eq!(t.cds_start_codon_stat(), CdsStat::Complete);
    assert_eq!(t.cds_stop_codon_stat(), CdsStat::Complete);
    let exons = t.exons();
    assert_eq!(exons.len(), 2);
    assert_eq!(*exons[0].cds_start(), Some(150));
    assert_eq!(*exons[0].cds_end(), Some(200));
    assert_eq!(*exons[0].frame_offset(), Frame::Zero);
    assert_eq!(*exons[1].cds_start(), Some(300));
    assert_eq!(*exons[1].cds_end(), Some(352));
    assert_eq!(*exons[1].frame_offset(), Frame::One);
    assert_eq!(t.cds_start(), Some(150));
    assert_eq!(t.cds_end(), Some(352));
}

#[test]
fn minus_strand_codons_swap_sides() {
    let mut group = GtfRecordsGroup::new("Tx");
    group.add_exon(record(GtfFeature::Exon, 100, 200, Strand::Minus, Frame::Unspecified));
    group.add_exon(record(GtfFeature::StopCodon, 120, 122, Strand::Minus, Frame::Zero));
    group.add_exon(record(GtfFeature::CDS, 123, 180, Strand::Minus, Frame::Zero));
    let t = Transcript::try_from(group).unwrap();
    assert_eq!(t.cds_start_stat(), CdsStat::Complete);
    assert_eq!(t.cds_end_stat(), CdsStat::Incomplete);
    assert_eq!(t.cds_stop_codon_stat(), CdsStat::Complete);
    assert_eq!(*t.exons()[0].cds_start(), Some(120));
    assert_eq!(*t.exons()[0].cds_end(), Some(180));
}

#[test]
fn group_without_cds_has_unknown_status() {
    let mut group = GtfRecordsGroup::new("Tx");
    group.add_exon(record(GtfFeature::Exon, 1, 5, Strand::Plus, Frame::Unspecified));
    let t = Transcript::try_from(group).unwrap();
    assert_eq!(t.cds_start_stat(), CdsStat::Unknown);
    assert_eq!(t.cds_end_stat(), CdsStat::Unknown);
    assert!(!t.is_coding());
}

#[test]
fn empty_group_is_an_error() {
    let group = GtfRecordsGroup::new("Tx");
    let err = Transcript::try_from(group).unwrap_err();
    assert_eq!(err.message, "No exons in GTFT Tx with 0 exons".to_string());
}

#[test]
fn unknown_strand_is_an_error() {
    let mut group = GtfRecordsGroup::new("Tx");
    group.add_exon(record(GtfFeature::Exon, 1, 5, Strand::Unknown, Frame::Unspecified));
    let err = Transcript::try_from(group).unwrap_err();
    assert_eq!(
        err.message,
        "Unable to build the transcript: Cannot set CDS-Startcodon-Stat without defined strand".to_string()
    );
}

#[test]
fn utr_fragment_has_no_frame() {
    let r = record(GtfFeature::UTR5, 1, 5, Strand::Plus, Frame::Two);
    let e = r.to_exon();
    assert_eq!(*e.frame_offset(), Frame::Unspecified);
    assert_eq!(*e.cds_start(), None);
}

#[test]
fn feature_tokens() {
    assert_eq!(GtfFeature::from_str("start_codon").unwrap(), GtfFeature::StartCodon);
    assert_eq!(GtfFeature::from_str("5UTR").unwrap(), GtfFeature::UTR5);
    assert_eq!(GtfFeature::StopCodon.to_string(), "stop_codon".to_string());
    assert_eq!(
        GtfFeature::from_str("foo").unwrap_err().message,
        "invalid feature type foo".to_string()
    );
}

#[test]
fn record_builder_reports_missing_fields() {
    let r = GtfRecordBuilder::new().chrom("chr1").build();
    assert_eq!(r.unwrap_err(), "Missing source".to_string());
}

const LINES: [&str; 5] = [
    "chr11\tncbiRefSeq\texon\t100\t200\t.\t+\t.\tgene_id \"ZBTB16\"; transcript_id \"NM_1\"; exon_number \"1\";",
    "chr11\tncbiRefSeq\tCDS\t150\t200\t.\t+\t0\tgene_id \"ZBTB16\"; transcript_id \"NM_1\";",
    "chr11\tncbiRefSeq\tstart_codon\t150\t152\t.\t+\t0\tgene_id \"ZBTB16\"; transcript_id \"NM_1\";",
    "chr11\tncbiRefSeq\texon\t500\t600\t0.5\t-\t.\tgene_id \"OTHER\"; transcript_id \"NM_2\";  ",
    "chr11\tncbiRefSeq\ttranscript\t100\t200\t.\t+\t.\tgene_id \"ZBTB16\"; transcript_id \"NM_1\";\textra",
];

#[test]
fn gtf_lines_are_parsed() {
    let r = GtfRecord::from_str(LINES[1]).unwrap();
    assert_eq!(r.chrom(), "chr11");
    assert_eq!(*r.feature(), GtfFeature::CDS);
    assert_eq!((r.start(), r.end()), (150, 200));
    assert_eq!(*r.strand(), Strand::Plus);
    assert_eq!(r.frame_offset(), Frame::Zero);
    assert_eq!(r.gene(), "ZBTB16");
    assert_eq!(r.transcript(), "NM_1");
    let r = GtfRecord::from_str(LINES[3]).unwrap();
    assert_eq!(r.transcript(), "NM_2");
    let r = GtfRecord::from_str(LINES[4]).unwrap();
    assert_eq!(*r.feature(), GtfFeature::Transcript);
}

#[test]
fn malformed_gtf_lines_fail() {
    assert!(GtfRecord::from_str("chr1\tsrc\texon\t1\t5").is_err());
    assert!(GtfRecord::from_str("chr1\tsrc\tblob\t1\t5\t.\t+\t.\tgene_id \"a\"; transcript_id \"b\";").is_err());
    assert!(GtfRecord::from_str("chr1\tsrc\texon\tx\t5\t.\t+\t.\tgene_id \"a\"; transcript_id \"b\";").is_err());
    assert!(GtfRecord::from_str("chr1\tsrc\texon\t1\t5\t.\t*\t.\tgene_id \"a\"; transcript_id \"b\";").is_err());
    assert!(GtfRecord::from_str("chr1\tsrc\texon\t1\t5\t.\t+\t7\tgene_id \"a\"; transcript_id \"b\";").is_err());
    assert!(GtfRecord::from_str("chr1\tsrc\texon\t1\t5\t.\t+\t.\tgene_id \"a\";").is_err());
}

#[test]
fn records_become_transcripts_in_order() {
    let records: Vec<GtfRecord> = LINES.iter().map(|l| GtfRecord::from_str(l).unwrap()).collect();
    let groups = atg::gtf::group_records(records);
    assert_eq!(groups.len(), 2);
    assert_eq!(groups[0].transcript(), "NM_1");
    assert_eq!(groups[1].transcript(), "NM_2");
    let records: Vec<GtfRecord> = LINES.iter().map(|l| GtfRecord::from_str(l).unwrap()).collect();
    let ts = atg::gtf::transcripts_from_records(records).unwrap();
    assert_eq!(ts.len(), 2);
    assert_eq!(ts[0].name(), "NM_1");
    assert_eq!(ts[0].exon_count(), 1);
    assert_eq!(ts[0].cds_start(), Some(150));
    assert_eq!(ts[0].cds_start_stat(), CdsStat::Complete);
    assert_eq!(ts[0].cds_end_stat(), CdsStat::Incomplete);
    assert_eq!(ts[1].name(), "NM_2");
    assert_eq!(ts[1].strand(), Strand::Minus);
}

#[test]
fn transcript_only_group_fails() {
    let records = vec![GtfRecord::from_str(LINES[4]).unwrap()];
    let err = atg::gtf::transcripts_from_records(records).unwrap_err();
    assert_eq!(
        err.message,
        "Error parsing An error occurred while parsing the GTF input. Please check your input data.\nNo exons in GTFT NM_1 with 0 exons".to_string()
    );
}

#[test]
fn gtf_text_becomes_transcripts() {
    let mut text = String::from("#!genome-build test\n");
    for line in LINES.iter() {
        text.push_str(line);
        text.push('\n');
    }
    let ts = atg::gtf::transcripts_from_text(&text).unwrap();
    assert_eq!(ts.len(), 2);
    assert_eq!(ts[0].name(), "NM_1");
    assert_eq!(ts[1].name(), "NM_2");
    assert!(atg::gtf::transcripts_from_text("chr1\tsrc\n").is_err());
    assert!(atg::gtf::transcripts_from_text("").unwrap().is_empty());
}
