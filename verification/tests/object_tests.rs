use ganlib::error::{GffError, LineFault};
use ganlib::interval::Interval;
use ganlib::object::GffObject;
use ganlib::utils::Types;

#[test]
fn test_object_creation() {
    let line = "chr1\ttest\tgene\t100\t200\t.\t+\t.\tgene_id \"test\"; gene_name \"test\";";
    let obj = GffObject::new(line, false).unwrap();
    assert_eq!(obj.seqid, "chr1");
    assert_eq!(obj.source, "test");
    assert_eq!(obj.g_type, Types::Gene);
    assert_eq!(obj.interval.start(), 100);
    assert_eq!(obj.interval.end(), 200);
    assert_eq!(obj.strand, '+');
    assert_eq!(obj.attrs.len(), 2);
    assert_eq!(obj.attrs.get("gene_id").unwrap(), "test");
    assert_eq!(obj.attrs.get("gene_name").unwrap(), "test");
}

#[test]
fn test_mut_interval() {
    let mut interval = Interval::new(1..10).unwrap();
    assert_eq!(interval.start(), 1);
    assert_eq!(interval.end(), 10);
    interval.set_start(5).unwrap();
    interval.set_end(15).unwrap();
    assert_eq!(interval.start(), 5);
    assert_eq!(interval.end(), 15);
}

#[test]
fn interval_refuses_reversed_bounds() {
    assert!(matches!(
        Interval::new(7..1),
        Err(GffError::InvalidRange { start: 7, end: 1 })
    ));
    let mut interval = Interval::new(3..6).unwrap();
    assert!(interval.set_start(7).is_err());
    assert!(interval.set_end(2).is_err());
    assert_eq!((interval.start(), interval.end()), (3, 6));
    assert_eq!(interval.len(), 4);
    assert_eq!(Interval::new(4..4).unwrap().len(), 1);
}

#[test]
fn interval_hull_and_relations() {
    let a = Interval::new(100..200).unwrap();
    let b = Interval::new(150..250).unwrap();
    let c = Interval::new(201..300).unwrap();
    assert!(a.overlaps(&b));
    assert!(b.overlaps(&a));
    assert!(!a.overlaps(&c));
    assert!(a.overlaps(&Interval::new(200..200).unwrap()));
    assert!(a.contains(&Interval::new(120..180).unwrap()));
    assert!(!a.contains(&b));
    let h = a.hull(&c);
    assert_eq!((h.start(), h.end()), (100, 300));
    assert!(a.same(&Interval::new(100..200).unwrap()));
}

#[test]
fn record_keeps_the_columns_of_its_line() {
    let line = "chrX\thavana\tmRNA\t5\t17\t0.5\t-\t0\tID=t1;Parent=g1;Name=abc";
    let obj = GffObject::new(line, true).unwrap();
    assert_eq!(obj.seqid(), "chrX");
    assert_eq!(obj.source(), "havana");
    assert_eq!(obj.get_type(), Types::Transcript);
    assert_eq!(obj.strand(), '-');
    assert_eq!((obj.interval.start(), obj.interval.end()), (5, 17));
    assert_eq!(obj.len(), 13);
    assert_eq!(obj.id_str, Some("t1".to_string()));
    assert_eq!(obj.parent_id_str, Some("g1".to_string()));
    assert_eq!(obj.id, None);
    assert!(obj.children.is_empty());
    assert_eq!(obj.parent, None);
    assert_eq!(obj.extra_attrs.get("record_source").unwrap(), "mRNA");
}

#[test]
fn gff_identity_keys_are_stored_by_meaning() {
    let line = "chr1\ttest\ttranscript\t1\t100\t.\t+\t.\tID=t1;Parent=g1;Name=abc";
    let obj = GffObject::new(line, true).unwrap();
    assert_eq!(obj.attrs.len(), 3);
    assert_eq!(obj.attrs.get("transcript_id").unwrap(), "t1");
    assert_eq!(obj.attrs.get("gene_id").unwrap(), "g1");
    assert_eq!(obj.attrs.get("name").unwrap(), "abc");
    assert!(obj.attrs.get("id").is_none());
    assert!(obj.attrs.get("parent").is_none());

    let exon = GffObject::new("chr1\ttest\texon\t1\t100\t.\t+\t.\tID=e1;Parent=t1", true).unwrap();
    assert_eq!(exon.attrs.get("id").unwrap(), "e1");
    assert_eq!(exon.attrs.get("transcript_id").unwrap(), "t1");
    assert_eq!(exon.id_str, Some("e1".to_string()));
    assert_eq!(exon.parent_id_str, Some("t1".to_string()));

    let gene = GffObject::new("chr1\ttest\tgene\t1\t100\t.\t+\t.\tID=g1", true).unwrap();
    assert_eq!(gene.attrs.get("gene_id").unwrap(), "g1");
    assert_eq!(gene.id_str, Some("g1".to_string()));
    assert_eq!(gene.parent_id_str, None);
}

#[test]
fn type_column_is_read_in_any_case() {
    let kinds = [
        ("Gene", Types::Gene),
        ("TRANSCRIPT", Types::Transcript),
        ("mRNA", Types::Transcript),
        ("exon", Types::Exon),
        ("CDS", Types::CDS),
        ("UTR", Types::UTR),
        ("Intron", Types::Intron),
        ("intergenic", Types::Intergenic),
        ("start_codon", Types::Unknown),
    ];
    for (name, kind) in kinds {
        let line = format!("chr1\ttest\t{}\t1\t100\t.\t+\t.\tgene_id \"g\";", name);
        assert_eq!(GffObject::new(&line, false).unwrap().g_type, kind);
    }
    assert_eq!(Types::Gene.to_string(), "gene");
    assert_eq!(Types::CDS.to_string(), "CDS");
    assert_eq!(Types::Unknown.to_string(), "unknown");
    assert_eq!(Types::default(), Types::Unknown);
}

fn fault_of(line: &str, is_gff: bool) -> LineFault {
    match GffObject::new(line, is_gff) {
        Err(GffError::MalformedLine { line: text, reason }) => {
            assert_eq!(text, line);
            reason
        }
        other => panic!("expected a rejected line, got {:?}", other),
    }
}

#[test]
fn malformed_lines_are_rejected_with_their_reason() {
    assert_eq!(fault_of("chr1\ttest\tgene\t1\t100", false), LineFault::ColumnCount);
    assert_eq!(
        fault_of("chr1\ttest\tgene\tx\t100\t.\t+\t.\tgene_id \"g\";", false),
        LineFault::Start
    );
    assert_eq!(
        fault_of("chr1\ttest\tgene\t1\t-5\t.\t+\t.\tgene_id \"g\";", false),
        LineFault::End
    );
    assert_eq!(
        fault_of("chr1\ttest\tgene\t1\t99999999999999999999999\t.\t+\t.\tgene_id \"g\";", false),
        LineFault::End
    );
    assert_eq!(
        fault_of("chr1\ttest\tgene\t200\t100\t.\t+\t.\tgene_id \"g\";", false),
        LineFault::Range
    );
    assert_eq!(
        fault_of("chr1\ttest\tgene\t1\t100\t.\t*\t.\tgene_id \"g\";", false),
        LineFault::Strand
    );
    assert_eq!(
        fault_of("chr1\ttest\tgene\t1\t100\t.\t++\t.\tgene_id \"g\";", false),
        LineFault::Strand
    );
    assert_eq!(fault_of("chr1\ttest\tgene\t1\t100\t.\t+\t.\t", false), LineFault::Attributes);
    assert_eq!(fault_of("chr1\ttest\tgene\t1\t100\t.\t+\t.\tnovalue", true), LineFault::Attributes);
}

#[test]
fn intergenic_features_need_no_attributes() {
    let obj = GffObject::new("chr1\ttest\tintergenic\t1\t100\t.\t.\t.\t", false).unwrap();
    assert_eq!(obj.g_type, Types::Intergenic);
    assert_eq!(obj.attrs.len(), 0);
}

#[test]
fn an_empty_source_column_gives_the_default_source() {
    let obj = GffObject::new("chr1\t\tgene\t1\t100\t.\t+\t.\tgene_id \"g\";", false).unwrap();
    assert_eq!(obj.source, "GANLIB");
    let dot = GffObject::new("chr1\t.\tgene\t1\t100\t.\t+\t.\tgene_id \"g\";", false).unwrap();
    assert_eq!(dot.source, ".");
}

#[test]
fn default_record() {
    let obj = GffObject::default();
    assert_eq!(obj.seqid, "");
    assert_eq!(obj.source, "GANLIB");
    assert_eq!(obj.g_type, Types::Unknown);
    assert_eq!(obj.strand, '.');
    assert_eq!((obj.interval.start(), obj.interval.end()), (0, 0));
    assert_eq!(obj.id, None);
    assert!(obj.attrs.is_empty());
}

#[test]
fn records_overlap_on_the_same_sequence_only() {
    let a = GffObject::new("chr1\tt\texon\t100\t200\t.\t+\t.\tgene_id \"g\";", false).unwrap();
    let b = GffObject::new("chr1\tt\texon\t150\t250\t.\t+\t.\tgene_id \"g\";", false).unwrap();
    let c = GffObject::new("chr2\tt\texon\t150\t250\t.\t+\t.\tgene_id \"g\";", false).unwrap();
    let d = GffObject::new("chr1\tt\texon\t120\t180\t.\t+\t.\tgene_id \"g\";", false).unwrap();
    assert!(a.overlaps(&b));
    assert!(!a.overlaps(&c));
    assert!(a.contains(&d));
    assert!(!d.contains(&a));
    assert!(!a.contains(&b));
}

#[test]
fn record_attributes_can_be_set() {
    let mut obj = GffObject::new("chr1\tt\texon\t1\t2\t.\t+\t.\tgene_id \"g\";", false).unwrap();
    obj.set_attr("note", "n1".to_string());
    obj.set_attr("gene_id", "h".to_string());
    assert_eq!(obj.get_attr("note").unwrap(), "n1");
    assert_eq!(obj.get_attr("gene_id").unwrap(), "h");
    assert_eq!(obj.get_attrs().len(), 2);
    obj.set_type(Types::CDS);
    assert_eq!(obj.get_type(), Types::CDS);
    assert_eq!(obj.phase(), None);
}
