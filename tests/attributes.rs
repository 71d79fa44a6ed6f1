use atg::attributes::{parse_attribute, Attributes};
use atg::gtf;

#[test]
fn record_test_attributes_parsing() {
    let col = "gene_id \"ZBTB16\"; transcript_id \"NM_001354751.2\"; exon_number \"2\"; exon_id \"NM_001354751.2.2\"; gene_name \"ZBTB16\";";
    let attr = gtf::parse_attributes(col).unwrap();
    assert_eq!(attr.0, "ZBTB16");
    assert_eq!(attr.1, "NM_001354751.2");

    let col = "gene_id \"ZBTB16\"; transcript_id \"NM_001354752.1\"; gene_name \"ZBTB16\";";
    let attr = gtf::parse_attributes(col).unwrap();
    assert_eq!(attr.0, "ZBTB16");
    assert_eq!(attr.1, "NM_001354752.1");
}

#[test]
fn record_test_single_attribute_parsing() {
    let res = gtf::parse_attribute("gene_id \"ZBTB16\"").unwrap();
    assert_eq!(res.0, "gene_id");
    assert_eq!(res.1, "ZBTB16");

    let res = gtf::parse_attribute("transcript_id \"NM_001354751.2\"").unwrap();
    assert_eq!(res.0, "transcript_id");
    assert_eq!(res.1, "NM_001354751.2");
}

#[test]
fn utils_test_attributes_parsing() {
    let col = "gene_id \"ZBTB16\"; transcript_id \"NM_001354751.2\"; exon_number \"2\"; exon_id \"NM_001354751.2.2\"; gene_name \"ZBTB16\";";
    let attr = Attributes::from_str(col).unwrap();
    assert_eq!(attr.transcript(), "NM_001354751.2");
    assert_eq!(attr.gene(), "ZBTB16");
    assert_eq!(attr.all().len(), 5);

    let col = "gene_id \"ZBTB16\"; transcript_id \"NM_001354752.1\"; gene_name \"ZBTB16\";";
    let attr = Attributes::from_str(col).unwrap();
    assert_eq!(attr.transcript(), "NM_001354752.1");
    assert_eq!(attr.gene(), "ZBTB16");
    assert_eq!(attr.all().len(), 3);
}

#[test]
fn utils_test_single_attribute_parsing() {
    let res = parse_attribute("gene_id \"ZBTB16\"").unwrap();
    assert_eq!(res.0, "gene_id");
    assert_eq!(res.1, "ZBTB16");

    let res = parse_attribute("transcript_id \"NM_001354751.2\"").unwrap();
    assert_eq!(res.0, "transcript_id");
    assert_eq!(res.1, "NM_001354751.2");
}

#[test]
fn attributes_without_ids_fail() {
    assert!(gtf::parse_attributes("gene_id \"A\";").is_err());
    assert!(gtf::parse_attributes("gene_id \"A\"; transcript_id \"B\"").is_err());
    assert!(gtf::parse_attribute("gene_id").is_err());
    let err = Attributes::from_str("gene_id \"A\";").unwrap_err();
    assert_eq!(err.message, "missing transcript_id in gene_id \"A\";".to_string());
    assert!(Attributes::from_str("gene_id \"A\"; broken;").is_err());
}

#[test]
fn attributes_keep_other_pairs_in_order() {
    let attr = Attributes::from_str(" exon_number \"3\" ; gene_id \"G\"; transcript_id \"T\"; tag \"basic\"").unwrap();
    let all = attr.all();
    assert_eq!(all[0], ("gene_id", "G"));
    assert_eq!(all[1], ("transcript_id", "T"));
    assert_eq!(all[2], ("exon_number", "3"));
    assert_eq!(all[3], ("tag", "basic"));
}
