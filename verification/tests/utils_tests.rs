use ganlib::utils::{attr_is_gff, extract_attributes, extract_id, extract_parent_id, is_gff, Types};

#[test]
fn test_extract_attributes() {
    let gff_line = "ID=gene1; gene_name=GENE1";
    let gff_attrs = extract_attributes(gff_line, true);
    assert_eq!(gff_attrs.len(), 2);

    let gtf_line = "gene_id \"gene1\"; gene_name \"GENE1\"";
    let gtf_attrs = extract_attributes(gtf_line, false);
    assert_eq!(gtf_attrs.len(), 2);
}

#[test]
fn test_extract_ids() {
    let gff_line = "ID=gene1; gene_name=GENE1";
    let gff_attrs = extract_attributes(gff_line, true);
    let id = extract_id(&gff_attrs, &Types::Gene, true);
    let parent = extract_parent_id(&gff_attrs, &Types::Gene, true);
    assert_eq!(id, Some("gene1".to_string()));
    assert_eq!(parent, None);

    let gtf_line = "gene_id \"g1\"; transcript_id \"t1\"";
    let gtf_attrs = extract_attributes(gtf_line, false);
    let id = extract_id(&gtf_attrs, &Types::Transcript, false);
    let parent = extract_parent_id(&gtf_attrs, &Types::Transcript, false);
    assert_eq!(id, Some("t1".to_string()));
    assert_eq!(parent, Some("g1".to_string()));

    let id = extract_id(&gtf_attrs, &Types::Gene, false);
    let parent = extract_parent_id(&gtf_attrs, &Types::Gene, false);
    assert_eq!(id, Some("g1".to_string()));
    assert_eq!(parent, None);

    let id = extract_id(&gtf_attrs, &Types::Exon, false);
    let parent = extract_parent_id(&gtf_attrs, &Types::Exon, false);
    assert_eq!(id, None);
    assert_eq!(parent, Some("t1".to_string()));
}

#[test]
fn attributes_of_a_gff_column() {
    let attrs = extract_attributes("ID=gene1;Name=GENE1", true);
    assert_eq!(attrs.len(), 2);
    assert_eq!(attrs.get("id").unwrap(), "gene1");
    assert_eq!(attrs.get("name").unwrap(), "GENE1");
    assert!(attrs.get("Name").is_none());
}

#[test]
fn attributes_of_a_gtf_column() {
    let attrs = extract_attributes("gene_id \"g1\"; transcript_id \"t1\"", false);
    assert_eq!(attrs.len(), 2);
    assert_eq!(attrs.get("gene_id").unwrap(), "g1");
    assert_eq!(attrs.get("transcript_id").unwrap(), "t1");
}

#[test]
fn column_dialects() {
    assert_eq!(attr_is_gff("ID=transcript1").unwrap(), true);
    assert_eq!(attr_is_gff("ID=exon1;Parent=transcript1;").unwrap(), true);
    assert_eq!(attr_is_gff("gene_id \"g1\"; transcript_id \"t1\";").unwrap(), false);
    assert!(attr_is_gff("transcript_id=transcript2").is_err());
    assert!(attr_is_gff("").is_err());
}

#[test]
fn line_dialects() {
    assert_eq!(is_gff("chr1\ttest\ttranscript\t1\t100\t.\t+\t.\tID=transcript1").unwrap(), true);
    assert_eq!(
        is_gff("chr1\ttest\texon\t1\t100\t.\t+\t.\tgene_id \"test\"; transcript_id \"test\";")
            .unwrap(),
        false
    );
    assert!(is_gff("# comment").is_err());
    assert!(is_gff("invalid\tline\twithout\tnine\tcolumns").is_err());
}

#[test]
fn types_are_ordered_as_listed() {
    let mut kinds = vec![
        Types::Unknown,
        Types::Exon,
        Types::Other,
        Types::Gene,
        Types::Intergenic,
        Types::CDS,
        Types::Transcript,
        Types::Intron,
        Types::UTR,
    ];
    kinds.sort();
    let names: Vec<String> = kinds.iter().map(|k| k.to_string()).collect();
    assert_eq!(
        names,
        vec![
            "gene", "transcript", "exon", "CDS", "UTR", "intron", "intergenic", "other", "unknown"
        ]
    );
    assert_eq!(Types::from_lowercase("mrna"), Types::Transcript);
    assert_eq!(Types::from_lowercase("MRNA"), Types::Unknown);
    assert_eq!(Types::from_column("MRNA"), Types::Transcript);
    assert_eq!(Types::from_column("other"), Types::Unknown);
}
