use ganlib::bundle::Bundle;
use ganlib::error::{FormatFault, GffError, LineFault};
use ganlib::exon::Exon;
use ganlib::factory::{Feature, GffObjectFactory};
use ganlib::hierarchy::{Object, ObjectManager};
use ganlib::interval::Interval;
use ganlib::object::GffObject;
use ganlib::order::{compare_exons, compare_intervals, compare_records};
use ganlib::text::{compare_chars, digits_of, parse_number};
use ganlib::utils::{get_attr_value, extract_attributes, Types};
use std::cmp::Ordering;

#[test]
fn test_object_mod() {
    let mut manager = ObjectManager {
        objects: vec![
            Object::new(0, None),    // Root object
            Object::new(1, Some(0)), // Child of object 0
            Object::new(2, Some(0)), // Child of object 0
            Object::new(3, Some(1)), // Child of object 1
        ],
    };

    manager.build_hierarchy();

    for obj in &manager.objects {
        println!(
            "Object ID: {}, Parent ID: {:?}, Children: {:?}",
            obj.id, obj.parent_id, obj.children
        );
    }
    let children: Vec<Vec<usize>> = manager.objects.iter().map(|o| o.children.clone()).collect();
    assert_eq!(children, vec![vec![1, 2], vec![3], vec![], vec![]]);
}

#[test]
fn nodes_without_a_stored_parent_are_entered_nowhere() {
    let mut manager = ObjectManager {
        objects: vec![Object::new(7, Some(5)), Object::new(8, Some(0)), Object::new(9, Some(1))],
    };
    manager.build_hierarchy();
    let children: Vec<Vec<usize>> = manager.objects.iter().map(|o| o.children.clone()).collect();
    assert_eq!(children, vec![vec![8], vec![9], vec![]]);
    manager.build_hierarchy();
    let again: Vec<Vec<usize>> = manager.objects.iter().map(|o| o.children.clone()).collect();
    assert_eq!(again, vec![vec![8, 8], vec![9, 9], vec![]]);
}

#[test]
fn exon_of_a_record() {
    let line = "chr1\ttest\texon\t10\t20\t.\t-\t.\tgene_id \"g1\"; transcript_id \"t1\";";
    let obj = GffObject::new(line, false).unwrap();
    let exon = Exon::from(obj.clone());
    assert_eq!(exon.seqid(), "chr1");
    assert_eq!(exon.strand(), '-');
    assert_eq!(exon.source(), "test");
    assert_eq!((exon.interval().start(), exon.interval().end()), (10, 20));
    assert_eq!(exon.get_tid(), Some("t1"));
    assert_eq!(exon.get_gid(), Some("g1"));
    assert_eq!(exon.get_type(), Types::Exon);
    assert_eq!(exon.get_attrs().len(), 2);
    assert!(exon.extra_attrs.is_empty());
    let mut other = exon.clone();
    assert!(exon == other);
    other.set_tid("t2".to_string());
    other.set_gid("g2".to_string());
    assert_eq!(other.get_tid(), Some("t2"));
    assert_eq!(other.get_gid(), Some("g2"));
    assert!(exon == other);
    other.get_attrs_mut().insert("note".to_string(), "x".to_string());
    assert!(exon != other);
}

#[test]
fn default_exon() {
    let exon = Exon::new();
    assert_eq!(exon.seqid, "");
    assert_eq!(exon.strand, '.');
    assert_eq!(exon.source, "GANLIB");
    assert_eq!(exon.get_tid(), None);
    assert_eq!(exon.get_gid(), None);
    assert_eq!(exon.obj_type, Types::Exon);
    assert!(exon == Exon::default());
    assert_eq!(Bundle {}, Bundle {});
}

#[test]
fn factory_makes_exons_and_records() {
    let factory = GffObjectFactory::default();
    let exon = "chr1\ttest\texon\t10\t20\t.\t-\t.\tID=e1;Parent=t1";
    match factory.create(exon, true).unwrap() {
        Feature::Exon(e) => {
            assert_eq!(e.get_tid(), Some("t1"));
            assert_eq!(e.get_gid(), None);
        }
        Feature::Object(_) => panic!("expected an exon"),
    }
    let gene = "chr1\ttest\tgene\t10\t20\t.\t-\t.\tID=g1";
    match factory.create(gene, true).unwrap() {
        Feature::Object(o) => assert_eq!(o.g_type, Types::Gene),
        Feature::Exon(_) => panic!("expected a record"),
    }
    assert!(matches!(
        factory.create("chr1\ttest\tgene", true),
        Err(GffError::MalformedLine { reason: LineFault::ColumnCount, .. })
    ));
}

#[test]
fn records_are_equal_by_content() {
    let line = "chr1\ttest\texon\t10\t20\t.\t-\t.\tgene_id \"g1\"; transcript_id \"t1\";";
    let a = GffObject::new(line, false).unwrap();
    let mut b = a.clone();
    assert!(a == b);
    b.id = Some(4);
    b.children.push(2);
    assert!(a == b);
    let swapped = "chr1\ttest\texon\t10\t20\t.\t-\t.\ttranscript_id \"t1\"; gene_id \"g1\";";
    assert!(a == GffObject::new(swapped, false).unwrap());
    b.set_attr("gene_id", "g2".to_string());
    assert!(a != b);
    let c = GffObject::new("chr1\ttest\texon\t10\t21\t.\t-\t.\tgene_id \"g1\"; transcript_id \"t1\";", false).unwrap();
    assert!(a != c);
}

#[test]
fn records_are_ordered_by_sequence_strand_and_interval() {
    let rec = |seq: &str, strand: &str, s: usize, e: usize| {
        let line = format!("{}\ttest\texon\t{}\t{}\t.\t{}\t.\tgene_id \"g\";", seq, s, e, strand);
        GffObject::new(&line, false).unwrap()
    };
    let a = rec("chr1", "+", 10, 20);
    assert_eq!(compare_records(&a, &rec("chr1", "+", 10, 20)), Ordering::Equal);
    assert_eq!(compare_records(&a, &rec("chr2", "+", 1, 2)), Ordering::Less);
    assert_eq!(compare_records(&a, &rec("chr1", "-", 1, 2)), Ordering::Less);
    assert_eq!(compare_records(&a, &rec("chr1", "+", 10, 30)), Ordering::Less);
    assert_eq!(compare_records(&a, &rec("chr1", "+", 9, 30)), Ordering::Greater);
    assert_eq!(compare_records(&a, &rec("chr", "+", 90, 91)), Ordering::Greater);
    assert_eq!(compare_records(&rec("chr10", "+", 1, 2), &rec("chr2", "+", 1, 2)), Ordering::Less);
    assert!(a < rec("chr1", "+", 11, 12));
    assert_eq!(a.partial_cmp(&rec("chr1", ".", 11, 12)), Some(Ordering::Less));
    let i = Interval::new(10..20).unwrap();
    assert_eq!(compare_intervals(&i, &Interval::new(10..20).unwrap()), Ordering::Equal);
    assert_eq!(compare_intervals(&i, &Interval::new(10..21).unwrap()), Ordering::Less);
    assert_eq!(compare_intervals(&i, &Interval::new(9..99).unwrap()), Ordering::Greater);
    assert!(i == Interval::new(10..20).unwrap());
    assert!(i < Interval::new(11..11).unwrap());
}

#[test]
fn exons_are_ordered_like_records() {
    let exon = |seq: &str, s: usize, e: usize| {
        let line = format!("{}\ttest\texon\t{}\t{}\t.\t+\t.\tgene_id \"g\";", seq, s, e);
        Exon::from(GffObject::new(&line, false).unwrap())
    };
    assert_eq!(compare_exons(&exon("chr1", 1, 5), &exon("chr1", 1, 5)), Ordering::Equal);
    assert_eq!(compare_exons(&exon("chr1", 1, 5), &exon("chr1", 2, 3)), Ordering::Less);
    assert_eq!(compare_exons(&exon("chr1", 1, 5), &exon("chr1", 1, 4)), Ordering::Greater);
    assert_eq!(compare_exons(&exon("chr2", 1, 5), &exon("chr1", 9, 9)), Ordering::Greater);
    assert!(exon("chr1", 1, 5) < exon("chr1", 1, 6));
}

#[test]
fn texts_compare_as_in_a_dictionary() {
    let c = |a: &str, b: &str| {
        let x: Vec<char> = a.chars().collect();
        let y: Vec<char> = b.chars().collect();
        compare_chars(&x, &y)
    };
    assert_eq!(c("", ""), 0);
    assert_eq!(c("", "a"), -1);
    assert_eq!(c("a", ""), 1);
    assert_eq!(c("abc", "abd"), -1);
    assert_eq!(c("abd", "abc"), 1);
    assert_eq!(c("ab", "abc"), -1);
    assert_eq!(c("chrX", "chrX"), 0);
    for (a, b) in [("é", "z"), ("chr1", "chr10"), ("Z", "a"), ("日本", "日本語")] {
        let want = match a.cmp(b) {
            Ordering::Less => -1,
            Ordering::Equal => 0,
            Ordering::Greater => 1,
        };
        assert_eq!(c(a, b), want);
    }
}

#[test]
fn numbers_are_read_and_written() {
    let p = |s: &str| {
        let v: Vec<char> = s.chars().collect();
        parse_number(&v)
    };
    assert_eq!(p("0"), Some(0));
    assert_eq!(p("007"), Some(7));
    assert_eq!(p("+12"), Some(12));
    assert_eq!(p("18446744073709551615"), Some(usize::MAX));
    assert_eq!(p("18446744073709551616"), None);
    assert_eq!(p(""), None);
    assert_eq!(p("+"), None);
    assert_eq!(p("-1"), None);
    assert_eq!(p("1 "), None);
    assert_eq!(p("1.5"), None);
    assert_eq!(p("١٢"), None);
    for n in [0usize, 9, 10, 123, 4096, usize::MAX] {
        let digits = digits_of(n);
        assert_eq!(digits.iter().collect::<String>(), n.to_string());
        assert_eq!(parse_number(&digits), Some(n));
    }
}

#[test]
fn a_value_is_found_under_several_keys() {
    let attrs = extract_attributes("a=1;b=1;c=2", true);
    assert_eq!(get_attr_value(&attrs, &["a", "b"]), Some("1".to_string()));
    assert_eq!(get_attr_value(&attrs, &["x", "b"]), Some("1".to_string()));
    assert_eq!(get_attr_value(&attrs, &["a", "c"]), None);
    assert_eq!(get_attr_value(&attrs, &["x", "y"]), None);
    assert_eq!(get_attr_value(&attrs, &[]), None);
}

#[test]
fn attribute_codec_edge_cases() {
    let gff = extract_attributes("ID=a=b; ;novalue;KEY = v ;ID=c", true);
    assert_eq!(gff.len(), 2);
    assert_eq!(gff.get("id").unwrap(), "c");
    assert_eq!(gff.get("key ").unwrap(), " v");
    assert_eq!(gff.key_at(0), "id");
    assert_eq!(gff.value_at(1), " v");
    let gtf = extract_attributes("Gene_ID \"g 1\";tag\t\"x\";lonely; note \"\"\"q\"\"\"", false);
    assert_eq!(gtf.len(), 3);
    assert_eq!(gtf.get("gene_id").unwrap(), "g 1");
    assert_eq!(gtf.get("tag").unwrap(), "x");
    assert_eq!(gtf.get("note").unwrap(), "q");
    assert!(extract_attributes("", true).is_empty());
    let mut attrs = extract_attributes("a=1;b=2", true);
    assert_eq!(attrs.remove("a"), Some("1".to_string()));
    assert_eq!(attrs.remove("a"), None);
    assert!(!attrs.contains_key("a"));
    assert!(attrs.contains_key("b"));
    assert_eq!(attrs.len(), 1);
    let upper = extract_attributes("ÄB=1", true);
    assert_eq!(upper.get("äb").unwrap(), "1");
}

#[test]
fn failures_have_messages() {
    let e = GffObject::new("chr1\ttest", false).unwrap_err();
    assert_eq!(e.message(), "Invalid number of columns in GFF/GTF line: chr1\ttest");
    let f = GffError::FormatAmbiguous { text: "f.gff".to_string(), reason: FormatFault::NoTranscript };
    assert_eq!(f.message(), "Unable to determine file format: f.gff");
    assert_eq!(GffError::NoParent.message(), "Parent object could not be created");
    assert_eq!(GffError::IndexOutOfRange { index: 3 }.message(), "Index out of range");
    assert_eq!(GffError::Unplaced { index: 3 }.message(), "Object does not have an ID assigned");
    assert_eq!(
        GffError::InvalidRange { start: 3, end: 1 }.message(),
        "Interval start behind its end"
    );
}
