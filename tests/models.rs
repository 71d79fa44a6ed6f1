use atg::codon::Codon;
use atg::exon::Exon;
use atg::frame::Frame;
use atg::status::{CdsStat, Strand};
use atg::transcript::{Transcript, TranscriptBuilder};

fn standard_transcript() -> Transcript {
    let mut transcript = TranscriptBuilder::new()
        .name("Test-Transcript")
        .chrom("chr1")
        .strand(Strand::Plus)
        .gene("Test-Gene")
        .cds_start_stat(CdsStat::NoStat)
        .cds_end_stat(CdsStat::NoStat)
        .build()
        .unwrap();
    transcript.append_exons(&mut exons());
    transcript
}

fn exons() -> Vec<Exon> {
    vec![
        Exon::new(11, 15, None, None, Frame::Unspecified),
        Exon::new(21, 25, Some(24), Some(25), Frame::Zero),
        Exon::new(31, 35, Some(31), Some(35), Frame::One),
        Exon::new(41, 45, Some(41), Some(44), Frame::Two),
        Exon::new(51, 55, None, None, Frame::Unspecified),
    ]
}

#[test]
fn test_transcript() {
    let a = TranscriptBuilder::new()
        .name("Test-Transcript")
        .chrom("chr8")
        .strand(Strand::Plus)
        .gene("Test-Gene")
        .cds_start_stat(CdsStat::NoStat)
        .cds_end_stat(CdsStat::NoStat)
        .build()
        .unwrap();
    assert_eq!(a.name(), "Test-Transcript");
    assert_eq!(a.chrom(), "chr8");
    // assert_eq!(a.strand, Strand::Plus);
    assert_eq!(a.gene(), "Test-Gene");
}

#[test]
fn test_special_transcripts() {
    let _incompl = "33 NM_001042758.1  chr1    +   206516199   206629505   206516199   206628374   18  206516199,206557368,206566045,206566901,206574779,206578607,206579735,206589248,206592724,206594600,206603511,206610314,206611313,206613325,206619420,206623730,206626545,206628223,    206516362,206557431,206566261,206567030,206575004,206578709,206579933,206589333,206592752,206594625,206603572,206610392,206611448,206613431,206619645,206623810,206626726,206629505,    0   SRGAP2  incmpl  cmpl    2,0,0,0,0,0,0,0,1,2,0,1,1,1,2,2,1,2,";
}

#[test]
fn test_frame_addition() {
    assert_eq!(Frame::Unspecified.add(Frame::Zero).unwrap(), Frame::Zero);
    assert_eq!(Frame::Zero.add(Frame::Unspecified).unwrap(), Frame::Zero);
    assert_eq!(Frame::Unspecified.add(Frame::Zero).unwrap(), Frame::Zero);
    assert_eq!(Frame::Zero.add(Frame::Unspecified).unwrap(), Frame::Zero);
    assert_eq!(Frame::Zero.add(Frame::Zero).unwrap(), Frame::Zero);

    assert_eq!(Frame::Unspecified.add(Frame::One).unwrap(), Frame::One);
    assert_eq!(Frame::One.add(Frame::Unspecified).unwrap(), Frame::One);
    assert_eq!(Frame::Unspecified.add(Frame::One).unwrap(), Frame::One);
    assert_eq!(Frame::One.add(Frame::Unspecified).unwrap(), Frame::One);
    assert_eq!(Frame::Zero.add(Frame::One).unwrap(), Frame::One);
    assert_eq!(Frame::One.add(Frame::Zero).unwrap(), Frame::One);

    assert_eq!(Frame::One.add(Frame::One).unwrap(), Frame::Two);
    assert_eq!(Frame::One.add(Frame::Two).unwrap(), Frame::Zero);
    assert_eq!(Frame::Two.add(Frame::One).unwrap(), Frame::Zero);

    assert_eq!(Frame::Two.add(Frame::Two).unwrap(), Frame::One);
}

#[test]
fn test_exon_downstream_frame() {
    assert_eq!(
        Exon::new(1, 1, Some(1), Some(3), Frame::Zero)
            .downstream_frame()
            .unwrap(),
        Frame::Zero
    );

    assert_eq!(
        Exon::new(1, 1, Some(1), Some(4), Frame::Zero)
            .downstream_frame()
            .unwrap(),
        Frame::Two
    );

    assert_eq!(
        Exon::new(1, 1, Some(1), Some(5), Frame::Zero)
            .downstream_frame()
            .unwrap(),
        Frame::One
    );

    assert_eq!(
        Exon::new(1, 1, Some(1), Some(6), Frame::Zero)
            .downstream_frame()
            .unwrap(),
        Frame::Zero
    );

    assert_eq!(
        Exon::new(1, 1, Some(1), Some(3), Frame::One)
            .downstream_frame()
            .unwrap(),
        Frame::One
    );

    // XATG
    assert_eq!(
        Exon::new(1, 1, Some(1), Some(4), Frame::One)
            .downstream_frame()
            .unwrap(),
        Frame::Zero
    );

    // XATGX
    assert_eq!(
        Exon::new(1, 1, Some(1), Some(5), Frame::One)
            .downstream_frame()
            .unwrap(),
        Frame::Two
    );

    // XATGXX
    assert_eq!(
        Exon::new(1, 1, Some(1), Some(6), Frame::One)
            .downstream_frame()
            .unwrap(),
        Frame::One
    );

    // XXA
    assert_eq!(
        Exon::new(1, 1, Some(1), Some(3), Frame::Two)
            .downstream_frame()
            .unwrap(),
        Frame::Two
    );

    // XXAT
    assert_eq!(
        Exon::new(1, 1, Some(1), Some(4), Frame::Two)
            .downstream_frame()
            .unwrap(),
        Frame::One
    );

    // XXATG
    assert_eq!(
        Exon::new(1, 1, Some(1), Some(5), Frame::Two)
            .downstream_frame()
            .unwrap(),
        Frame::Zero
    );

    // XXATGX
    assert_eq!(
        Exon::new(1, 1, Some(1), Some(6), Frame::Two)
            .downstream_frame()
            .unwrap(),
        Frame::Two
    );
}

#[test]
fn case_1() {
    let mut transcript = standard_transcript();
    *transcript.exons_mut()[1].cds_start_mut() = Some(21);
    let a = transcript.start_codon();

    assert_eq!(a.len(), 1);
    assert_eq!(a[0].0, 21);
    assert_eq!(a[0].1, 23);
}

#[test]
fn case_2() {
    let mut transcript = standard_transcript();
    *transcript.exons_mut()[1].cds_start_mut() = Some(22);
    let a = transcript.start_codon();

    assert_eq!(a.len(), 1);
    assert_eq!(a[0].0, 22);
    assert_eq!(a[0].1, 24);
    assert_eq!(a[0].2, Frame::Zero);
}

#[test]
fn case_3() {
    let mut transcript = standard_transcript();
    *transcript.exons_mut()[1].cds_start_mut() = Some(23);
    let a = transcript.start_codon();

    assert_eq!(a.len(), 1);
    assert_eq!(a[0].0, 23);
    assert_eq!(a[0].1, 25);
}

#[test]
fn case_4() {
    let mut transcript = standard_transcript();
    *transcript.exons_mut()[1].cds_start_mut() = Some(24);
    let a = transcript.start_codon();

    assert_eq!(a.len(), 2);
    assert_eq!(a[0].0, 24);
    assert_eq!(a[0].1, 25);

    assert_eq!(a[1].0, 31);
    assert_eq!(a[1].1, 31);
    assert_eq!(a[1].2, Frame::One);
}

#[test]
fn case_5() {
    let mut transcript = standard_transcript();
    *transcript.exons_mut()[1].cds_start_mut() = Some(25);
    let a = transcript.start_codon();

    assert_eq!(a.len(), 2);
    assert_eq!(a[0].0, 25);
    assert_eq!(a[0].1, 25);

    assert_eq!(a[1].0, 31);
    assert_eq!(a[1].1, 32);
    assert_eq!(a[1].2, Frame::Two);
}

#[test]
fn case_6() {
    let mut transcript = standard_transcript();
    *transcript.exons_mut()[1].cds_start_mut() = Some(25);
    *transcript.exons_mut()[2].cds_start_mut() = Some(33);
    *transcript.exons_mut()[2].cds_end_mut() = Some(33);
    let a = transcript.start_codon();

    assert_eq!(a.len(), 3);
    assert_eq!(a[0].0, 25);
    assert_eq!(a[0].1, 25);

    assert_eq!(a[1].0, 33);
    assert_eq!(a[1].1, 33);

    assert_eq!(a[2].0, 41);
    assert_eq!(a[2].1, 41);
}

#[test]
fn mod_case_1() {
    let mut transcript = standard_transcript();
    *transcript.exons_mut()[3].cds_end_mut() = Some(45);
    let a = transcript.stop_codon();

    assert_eq!(a.len(), 1);
    assert_eq!(a[0].0, 43);
    assert_eq!(a[0].1, 45);
    assert_eq!(a[0].2, Frame::Zero);
}

#[test]
fn mod_case_2() {
    let mut transcript = standard_transcript();
    *transcript.exons_mut()[3].cds_end_mut() = Some(44);
    let a = transcript.stop_codon();

    assert_eq!(a.len(), 1);
    assert_eq!(a[0].0, 42);
    assert_eq!(a[0].1, 44);
}

#[test]
fn mod_case_3() {
    let mut transcript = standard_transcript();
    *transcript.exons_mut()[3].cds_end_mut() = Some(43);
    let a = transcript.stop_codon();

    assert_eq!(a.len(), 1);
    assert_eq!(a[0].0, 41);
    assert_eq!(a[0].1, 43);
}

#[test]
fn mod_case_4() {
    let mut transcript = standard_transcript();
    *transcript.exons_mut()[3].cds_end_mut() = Some(42);
    let a = transcript.stop_codon();

    assert_eq!(a.len(), 2);
    assert_eq!(a[0].0, 35);
    assert_eq!(a[0].1, 35);
    assert_eq!(a[0].2, Frame::Zero);

    assert_eq!(a[1].0, 41);
    assert_eq!(a[1].1, 42);
    assert_eq!(a[1].2, Frame::Two);
}

#[test]
fn mod_case_5() {
    let mut transcript = standard_transcript();
    *transcript.exons_mut()[3].cds_end_mut() = Some(41);
    let a = transcript.stop_codon();

    assert_eq!(a.len(), 2);
    assert_eq!(a[0].0, 34);
    assert_eq!(a[0].1, 35);
    assert_eq!(a[0].2, Frame::Zero);

    assert_eq!(a[1].0, 41);
    assert_eq!(a[1].1, 41);
    assert_eq!(a[1].2, Frame::One);
}

#[test]
fn mod_case_6() {
    let mut transcript = standard_transcript();
    *transcript.exons_mut()[2].cds_start_mut() = Some(33);
    *transcript.exons_mut()[2].cds_end_mut() = Some(33);
    *transcript.exons_mut()[3].cds_end_mut() = Some(41);
    let a = transcript.stop_codon();

    assert_eq!(a.len(), 3);
    assert_eq!(a[0].0, 25);
    assert_eq!(a[0].1, 25);

    assert_eq!(a[1].0, 33);
    assert_eq!(a[1].1, 33);

    assert_eq!(a[2].0, 41);
    assert_eq!(a[2].1, 41);
}

#[test]
fn test_codon_builder() {
    let transcript = standard_transcript();

    let codon = Codon::from_transcript(&transcript, &25).unwrap();
    assert_eq!(codon.fragments().len(), 2);
    assert_eq!(codon.fragments()[0].frame_offset(), Frame::Zero);
    assert_eq!(codon.fragments()[1].frame_offset(), Frame::Two);

    let codon = Codon::from_transcript(&transcript, &34).unwrap();
    assert_eq!(codon.fragments().len(), 2);
    assert_eq!(codon.fragments()[0].frame_offset(), Frame::Zero);
    assert_eq!(codon.fragments()[1].frame_offset(), Frame::One);
}

#[test]
fn test_utr_coordinates() {
    let transcript = standard_transcript();

    let coords = transcript.utr_coordinates();

    assert_eq!(coords.len(), 4);
    let starts: Vec<u32> = coords.iter().map(|x| x.1).collect();
    let ends: Vec<u32> = coords.iter().map(|x| x.2).collect();
    assert_eq!(starts, vec![11, 21, 45, 51]);
    assert_eq!(ends, vec![15, 23, 45, 55]);
}

#[test]
fn test_utr5_coordinates() {
    let mut transcript = standard_transcript();

    let coords = transcript.utr5_coordinates();
    assert_eq!(coords.len(), 2);
    let starts: Vec<u32> = coords.iter().map(|x| x.1).collect();
    let ends: Vec<u32> = coords.iter().map(|x| x.2).collect();
    assert_eq!(starts, vec![11, 21]);
    assert_eq!(ends, vec![15, 23]);

    let strand = transcript.strand_mut();
    *strand = Strand::Minus;
    let coords = transcript.utr5_coordinates();
    assert_eq!(coords.len(), 2);
    let starts: Vec<u32> = coords.iter().map(|x| x.1).collect();
    let ends: Vec<u32> = coords.iter().map(|x| x.2).collect();
    assert_eq!(starts, vec![45, 51]);
    assert_eq!(ends, vec![45, 55]);
}

#[test]
fn test_utr3_coordinates() {
    let mut transcript = standard_transcript();

    let coords = transcript.utr3_coordinates();
    assert_eq!(coords.len(), 2);
    let starts: Vec<u32> = coords.iter().map(|x| x.1).collect();
    let ends: Vec<u32> = coords.iter().map(|x| x.2).collect();
    assert_eq!(starts, vec![45, 51]);
    assert_eq!(ends, vec![45, 55]);

    let strand = transcript.strand_mut();
    *strand = Strand::Minus;
    let coords = transcript.utr3_coordinates();
    assert_eq!(coords.len(), 2);
    let starts: Vec<u32> = coords.iter().map(|x| x.1).collect();
    let ends: Vec<u32> = coords.iter().map(|x| x.2).collect();
    assert_eq!(starts, vec![11, 21]);
    assert_eq!(ends, vec![15, 23]);
}

#[test]
fn test_cds_coordinates() {
    let transcript = standard_transcript();

    let coords = transcript.cds_coordinates();

    assert_eq!(coords.len(), 3);
    let starts: Vec<u32> = coords.iter().map(|x| x.1).collect();
    let ends: Vec<u32> = coords.iter().map(|x| x.2).collect();
    assert_eq!(starts, vec![24, 31, 41]);
    assert_eq!(ends, vec![25, 35, 44]);
}

#[test]
fn test_exon_coordinates() {
    let transcript = standard_transcript();

    let coords = transcript.exon_coordinates();

    assert_eq!(coords.len(), 5);
    let starts: Vec<u32> = coords.iter().map(|x| x.1).collect();
    let ends: Vec<u32> = coords.iter().map(|x| x.2).collect();
    assert_eq!(starts, vec![11, 21, 31, 41, 51]);
    assert_eq!(ends, vec![15, 25, 35, 45, 55]);
}

#[test]
fn start_codon_split_over_two_exons() {
    let mut t = TranscriptBuilder::new()
        .name("T")
        .chrom("chr1")
        .strand(Strand::Plus)
        .gene("G")
        .build()
        .unwrap();
    t.push_exon(Exon::new(21, 25, Some(24), Some(25), Frame::Zero));
    t.push_exon(Exon::new(31, 35, Some(31), Some(35), Frame::One));
    let codon = Codon::downstream(&t, &24).unwrap();
    let pieces = codon.to_tuple();
    assert_eq!(pieces, vec![(24, 25, Frame::Zero), (31, 31, Frame::One)]);
    let total: u32 = pieces.iter().map(|p| p.1 - p.0 + 1).sum();
    assert_eq!(total, 3);
}

#[test]
fn codon_errors() {
    let t = standard_transcript();
    assert_eq!(
        Codon::downstream(&t, &10).unwrap_err().message,
        "start is upstream of the CDS".to_string()
    );
    assert_eq!(
        Codon::upstream(&t, &50).unwrap_err().message,
        "start is downstream of the CDS".to_string()
    );
    let mut u = standard_transcript();
    *u.strand_mut() = Strand::Unknown;
    assert!(Codon::from_transcript(&u, &25).is_err());
    assert!(u.start_codon().is_empty());
    let mut n = TranscriptBuilder::new().name("N").chrom("c").gene("g").build().unwrap();
    n.push_exon(Exon::new(1, 5, None, None, Frame::Unspecified));
    assert_eq!(
        Codon::downstream(&n, &2).unwrap_err().to_string(),
        "unable to build a Codon: transcript is non-coding".to_string()
    );
    assert!(n.stop_codon().is_empty());
    assert!(TranscriptBuilder::new().name("x").build().is_err());
}

#[test]
fn minus_strand_codons() {
    let mut t = standard_transcript();
    *t.strand_mut() = Strand::Minus;
    let start = t.start_codon();
    assert_eq!(start, vec![(42, 44, Frame::Zero)]);
    let stop = t.stop_codon();
    assert_eq!(stop, vec![(24, 25, Frame::Zero), (31, 31, Frame::One)]);
}

#[test]
fn frame_addition_is_commutative_on_examples() {
    let all = [Frame::Unspecified, Frame::Zero, Frame::One, Frame::Two];
    for a in all {
        for b in all {
            assert_eq!(a.add(b).is_ok(), b.add(a).is_ok());
            if let (Ok(x), Ok(y)) = (a.add(b), b.add(a)) {
                assert_eq!(x, y);
            }
        }
    }
    assert!(Frame::Unspecified.add(Frame::Unspecified).is_err());
    assert_eq!(Frame::from_int(7).unwrap(), Frame::One);
    assert_eq!(Frame::from_refgene("1").unwrap(), Frame::Two);
    assert_eq!(Frame::from_gtf("1").unwrap(), Frame::One);
    assert_eq!(Frame::from_gtf("x").unwrap_err(), "invalid frame indicator x".to_string());
}
