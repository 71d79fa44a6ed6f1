use atg::exon::Exon;
use atg::frame::Frame;
use atg::gtf::compose_lines;
use atg::refgene::{genepred_line, genepredext_line};
use atg::status::{CdsStat, Strand};
use atg::transcript::{Transcript, TranscriptBuilder};
use atg::transcripts::Transcripts;

fn gtf_text(transcripts: &[Transcript]) -> String {
    let mut text = String::new();
    for t in transcripts {
        for record in compose_lines(t, "atg") {
            text.push_str(&record.to_string());
            text.push('\n');
        }
    }
    text
}

fn collect(list: Vec<Transcript>) -> Transcripts {
    let mut ts = Transcripts::new();
    for t in list {
        ts.push(t);
    }
    ts
}

#[test]
fn writer_test_nm_001365057() {
    let transcripts = vec![nm_001365057()];
    let output = gtf_text(&transcripts);
    assert!(output.len() > 10);
    let read_transcripts = collect(atg::gtf::transcripts_from_text(&output).unwrap());
    assert_eq!(read_transcripts.by_name("NM_001365057.2")[0], &transcripts[0]);
}

#[test]
fn writer_test_nm_001365408() {
    let transcripts = vec![nm_001365408()];
    let output = gtf_text(&transcripts);
    assert!(output.len() > 10);
    let read_transcripts = collect(atg::gtf::transcripts_from_text(&output).unwrap());
    assert_eq!(read_transcripts.by_name("NM_001365408.1")[0], &transcripts[0]);
}

#[test]
fn writer_test_nm_001371720() {
    let transcripts = vec![nm_001371720(true)];
    let output = gtf_text(&transcripts);
    assert!(output.len() > 10);
    let read_transcripts = collect(atg::gtf::transcripts_from_text(&output).unwrap());
    assert_eq!(read_transcripts.by_name("NM_001371720.1")[0], &transcripts[0]);
}

#[test]
fn writer_test_nm_201550() {
    let transcripts = vec![nm_201550()];
    let output = gtf_text(&transcripts);
    assert!(output.len() > 10);
    let read_transcripts = collect(atg::gtf::transcripts_from_text(&output).unwrap());
    assert_eq!(read_transcripts.by_name("NM_201550.4")[0], &transcripts[0]);
}

#[test]
fn genepredext_writer_test_nm_001365057() {
    let transcripts = vec![nm_001365057()];
    let output = format!("{}\n", genepredext_line(&transcripts[0]));
    assert!(output.len() > 10);
    let read_transcripts = collect(atg::refgene::transcripts_from_text(&output, true).unwrap());
    assert_eq!(read_transcripts.by_name("NM_001365057.2")[0], &transcripts[0]);
}

#[test]
fn genepredext_writer_test_nm_001365408() {
    let transcripts = vec![nm_001365408()];
    let output = format!("{}\n", genepredext_line(&transcripts[0]));
    assert!(output.len() > 10);
    let read_transcripts = collect(atg::refgene::transcripts_from_text(&output, true).unwrap());
    assert_eq!(read_transcripts.by_name("NM_001365408.1")[0], &transcripts[0]);
}

#[test]
fn genepredext_writer_test_nm_001371720() {
    let transcripts = vec![nm_001371720(false)];
    let output = format!("{}\n", genepredext_line(&transcripts[0]));
    assert!(output.len() > 10);
    let read_transcripts = collect(atg::refgene::transcripts_from_text(&output, true).unwrap());
    assert_eq!(read_transcripts.by_name("NM_001371720.1")[0], &transcripts[0]);
}

#[test]
fn genepredext_writer_test_nm_201550() {
    let transcripts = vec![nm_201550()];
    let output = format!("{}\n", genepredext_line(&transcripts[0]));
    assert!(output.len() > 10);
    let read_transcripts = collect(atg::refgene::transcripts_from_text(&output, true).unwrap());
    assert_eq!(read_transcripts.by_name("NM_201550.4")[0], &transcripts[0]);
}

#[test]
fn genepred_writer_test_nm_001365057() {
    let transcripts = vec![nm_001365057()];
    let output = format!("{}\n", genepred_line(&transcripts[0]));
    assert_eq!(output, "NM_001365057.2\tchr9\t+\t74526554\t74600974\t74526650\t74597573\t3\t74526554,74561921,74597572,\t74526752,74562028,74600974,\n");
}

#[test]
fn genepred_writer_test_nm_001365408() {
    let transcripts = vec![nm_001365408()];
    let output = format!("{}\n", genepred_line(&transcripts[0]));
    assert_eq!(output, "NM_001365408.1\tchr16\t+\t66969418\t66978999\t66972142\t66977928\t12\t66969418,66971939,66973119,66974124,66974339,66975026,66975408,66975670,66976007,66976550,66977201,66977741,\t66969778,66972144,66973261,66974258,66974598,66975125,66975549,66975751,66976152,66976640,66977274,66978999,\n");
}

#[test]
fn genepred_writer_test_nm_001371720() {
    let transcripts = vec![nm_001371720(false)];
    let output = format!("{}\n", genepred_line(&transcripts[0]));
    assert_eq!(output, "NM_001371720.1\tchr1\t-\t155158299\t155162700\t155158610\t155162634\t8\t155158299,155159700,155159930,155160197,155160483,155160638,155161619,155162576,\t155158685,155159850,155160052,155160334,155160539,155161619,155162101,155162700,\n");
}

#[test]
fn genepred_writer_test_nm_201550() {
    let transcripts = vec![nm_201550()];
    let output = format!("{}\n", genepred_line(&transcripts[0]));
    assert_eq!(output, "NM_201550.4\tchr12\t-\t70002343\t70004687\t70003784\t70004618\t1\t70002343,\t70004687,\n");
}

fn nm_001365057() -> Transcript {
    let mut transcript = TranscriptBuilder::new()
        .name("NM_001365057.2")
        .chrom("chr9")
        .gene("C9orf85")
        .strand(Strand::Plus)
        .cds_start_codon_stat(CdsStat::Complete)
        .unwrap()
        .cds_stop_codon_stat(CdsStat::Complete)
        .unwrap()
        .build()
        .unwrap();

    transcript.push_exon(Exon::new(
        74526555,
        74526752,
        Some(74526651),
        Some(74526752),
        Frame::Zero,
    ));

    transcript.push_exon(Exon::new(
        74561922,
        74562028,
        Some(74561922),
        Some(74562028),
        Frame::Zero,
    ));

    transcript.push_exon(Exon::new(
        74597573,
        74600974,
        Some(74597573),
        Some(74597573),
        Frame::One,
    ));

    transcript
}

fn nm_001365408() -> Transcript {
    let mut transcript = TranscriptBuilder::new()
        .name("NM_001365408.1")
        .chrom("chr16")
        .gene("CES2")
        .strand(Strand::Plus)
        .cds_start_codon_stat(CdsStat::Complete)
        .unwrap()
        .cds_stop_codon_stat(CdsStat::Complete)
        .unwrap()
        .build()
        .unwrap();

    transcript.push_exon(Exon::new(
        66969419,
        66969778,
        None,
        None,
        Frame::Unspecified,
    ));
    transcript.push_exon(Exon::new(
        66971940,
        66972144,
        Some(66972143),
        Some(66972144),
        Frame::Zero,
    ));
    transcript.push_exon(Exon::new(
        66973120,
        66973261,
        Some(66973120),
        Some(66973261),
        Frame::One,
    ));
    transcript.push_exon(Exon::new(
        66974125,
        66974258,
        Some(66974125),
        Some(66974258),
        Frame::Zero,
    ));
    transcript.push_exon(Exon::new(
        66974340,
        66974598,
        Some(66974340),
        Some(66974598),
        Frame::One,
    ));
    transcript.push_exon(Exon::new(
        66975027,
        66975125,
        Some(66975027),
        Some(66975125),
        Frame::Zero,
    ));
    transcript.push_exon(Exon::new(
        66975409,
        66975549,
        Some(66975409),
        Some(66975549),
        Frame::Zero,
    ));
    transcript.push_exon(Exon::new(
        66975671,
        66975751,
        Some(66975671),
        Some(66975751),
        Frame::Zero,
    ));
    transcript.push_exon(Exon::new(
        66976008,
        66976152,
        Some(66976008),
        Some(66976152),
        Frame::Zero,
    ));
    transcript.push_exon(Exon::new(
        66976551,
        66976640,
        Some(66976551),
        Some(66976640),
        Frame::Two,
    ));
    transcript.push_exon(Exon::new(
        66977202,
        66977274,
        Some(66977202),
        Some(66977274),
        Frame::Two,
    ));
    transcript.push_exon(Exon::new(
        66977742,
        66978999,
        Some(66977742),
        Some(66977928),
        Frame::One,
    ));

    transcript
}

fn nm_001371720(gtf: bool) -> Transcript {
    let mut transcript = TranscriptBuilder::new()
        .name("NM_001371720.1")
        .chrom("chr1")
        .gene("MUC1")
        .strand(Strand::Minus)
        .cds_start_codon_stat(CdsStat::Complete)
        .unwrap()
        .cds_stop_codon_stat(CdsStat::Complete)
        .unwrap()
        .build()
        .unwrap();

    transcript.push_exon(Exon::new(
        155158300,
        155158685,
        Some(155158611),
        Some(155158685),
        Frame::Zero,
    ));
    transcript.push_exon(Exon::new(
        155159701,
        155159850,
        Some(155159701),
        Some(155159850),
        Frame::Zero,
    ));
    transcript.push_exon(Exon::new(
        155159931,
        155160052,
        Some(155159931),
        Some(155160052),
        Frame::Two,
    ));
    transcript.push_exon(Exon::new(
        155160198,
        155160334,
        Some(155160198),
        Some(155160334),
        Frame::One,
    ));
    transcript.push_exon(Exon::new(
        155160484,
        155160539,
        Some(155160484),
        Some(155160539),
        Frame::Zero,
    ));

    if gtf {
        transcript.push_exon(Exon::new(
            155160639,
            155162101,
            Some(155160639),
            Some(155162101),
            Frame::Two,
        ));
    } else {
        transcript.push_exon(Exon::new(
            155160639,
            155161619,
            Some(155160639),
            Some(155161619),
            Frame::Zero,
        ));
        transcript.push_exon(Exon::new(
            155161620,
            155162101,
            Some(155161620),
            Some(155162101),
            Frame::Two,
        ));
    }

    transcript.push_exon(Exon::new(
        155162577,
        155162700,
        Some(155162577),
        Some(155162634),
        Frame::Zero,
    ));
    transcript
}

fn nm_201550() -> Transcript {
    let mut transcript = TranscriptBuilder::new()
        .name("NM_201550.4")
        .chrom("chr12")
        .gene("LRRC10")
        .strand(Strand::Minus)
        .cds_start_codon_stat(CdsStat::Complete)
        .unwrap()
        .cds_stop_codon_stat(CdsStat::Complete)
        .unwrap()
        .build()
        .unwrap();

    transcript.push_exon(Exon::new(
        70002344,
        70004687,
        Some(70003785),
        Some(70004618),
        Frame::Zero,
    ));

    transcript
}

