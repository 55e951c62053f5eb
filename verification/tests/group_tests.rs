use ganlib::error::GffError;
use ganlib::group::Transcriptome;
use ganlib::interval::Interval;
use ganlib::object::GffObject;
use ganlib::utils::Types;

fn gtf(kind: &str, start: usize, end: usize, attrs: &str) -> GffObject {
    let line = format!("chr1\ttest\t{}\t{}\t{}\t.\t+\t.\t{}", kind, start, end, attrs);
    GffObject::new(&line, false).unwrap()
}

fn lines_of(text: &[&str]) -> Vec<String> {
    text.iter().map(|l| l.to_string()).collect()
}

#[test]
fn test_transcriptome() {
    let mut transcriptome = Transcriptome::new();
    match GffObject::new(
        "chr1\ttest\texon\t1\t100\t.\t+\t.\tgene_id \"test\"; transcript_id \"test\";",
        false,
    ) {
        Ok(obj) => {
            let oid = transcriptome.add_object(obj);
            let tobj = transcriptome.get(oid);
            let assigned_oid = tobj.unwrap().id.unwrap();
            assert_eq!(assigned_oid, oid);
        }
        Err(e) => {
            println!("Error: {}", e.message());
            assert!(false);
        }
    }
}

#[test]
fn test_from_file() {
    let fname = "test.gff";
    let lines = lines_of(&[
        "##gff-version 3",
        "# comment",
        "chr1\ttest\ttranscript\t1\t100\t.\t+\t.\tgene_id \"test\"; transcript_id \"test\";",
        "chr1\ttest\texon\t1\t100\t.\t+\t.\tgene_id \"test\"; transcript_id \"test\";",
    ]);

    let mut transcriptome = Transcriptome::from_file(fname, lines).unwrap();
    let res = transcriptome.finalize();
    assert!(res.is_ok());
    assert_eq!(transcriptome.objects().len(), 2);
}

#[test]
fn end_to_end_two_line_gtf() {
    let lines = lines_of(&[
        "chr1\ttest\ttranscript\t1\t100\t.\t+\t.\tgene_id \"test\"; transcript_id \"test\";",
        "chr1\ttest\texon\t1\t100\t.\t+\t.\tgene_id \"test\"; transcript_id \"test\";",
    ]);
    let mut store = Transcriptome::from_file("two.gtf", lines).unwrap();
    let report = store.finalize().unwrap();
    assert_eq!(store.len(), 2);
    let transcript = store.get(0).unwrap();
    let exon = store.get(1).unwrap();
    assert_eq!(transcript.id, Some(0));
    assert_eq!(exon.id, Some(1));
    assert_eq!(exon.parent_id_str, Some("test".to_string()));
    assert_eq!(store.lookup("test"), Some(0));
    assert_eq!(exon.parent, Some(0));
    assert_eq!(transcript.children, vec![1]);
    assert!(exon.children.is_empty());
    // the transcript names a gene that is not stored
    assert_eq!(transcript.parent, None);
    assert_eq!(report.len(), 1);
    assert_eq!(report[0].child, 0);
    assert_eq!(report[0].parent_id, "test");
}

#[test]
fn dangling_parent_is_reported() {
    let mut store = Transcriptome::new();
    store.add_object(gtf("transcript", 1, 100, "gene_id \"g1\"; transcript_id \"t1\";"));
    store.add_object(gtf("exon", 1, 50, "gene_id \"g1\"; transcript_id \"missing\";"));
    store.add_object(gtf("exon", 60, 100, "gene_id \"g1\"; transcript_id \"t1\";"));
    let report = store.finalize().unwrap();
    let dangling: Vec<(usize, &str)> =
        report.iter().map(|d| (d.child, d.parent_id.as_str())).collect();
    assert_eq!(dangling, vec![(0, "g1"), (1, "missing")]);
    assert_eq!(store.get(1).unwrap().parent, None);
    assert!(store.get(1).unwrap().children.is_empty());
    assert_eq!(store.get(2).unwrap().parent, Some(0));
    assert_eq!(store.get(0).unwrap().children, vec![2]);
}

#[test]
fn one_dangling_exon() {
    let mut store = Transcriptome::new();
    store.add_object(gtf("exon", 1, 50, "transcript_id \"missing\";"));
    let report = store.finalize().unwrap();
    assert_eq!(report.len(), 1);
    assert_eq!(report[0].child, 0);
    assert_eq!(report[0].parent_id, "missing");
    assert_eq!(store.get(0).unwrap().parent, None);
    assert!(store.get(0).unwrap().children.is_empty());
}

#[test]
fn hierarchy_is_repeatable() {
    let mut store = Transcriptome::new();
    store.add_object(gtf("exon", 10, 20, "gene_id \"g1\"; transcript_id \"t1\";"));
    store.add_object(gtf("gene", 1, 100, "gene_id \"g1\";"));
    store.add_object(gtf("transcript", 5, 90, "gene_id \"g1\"; transcript_id \"t1\";"));
    store.add_object(gtf("exon", 30, 40, "gene_id \"g1\"; transcript_id \"t1\";"));
    store.add_object(gtf("CDS", 12, 18, "gene_id \"g1\"; transcript_id \"t1\";"));
    assert!(store.finalize().unwrap().is_empty());
    let first: Vec<Vec<usize>> = store.objects().iter().map(|o| o.children.clone()).collect();
    assert_eq!(first, vec![vec![], vec![2], vec![0, 3, 4], vec![], vec![]]);
    assert!(store.finalize().unwrap().is_empty());
    let second: Vec<Vec<usize>> = store.objects().iter().map(|o| o.children.clone()).collect();
    assert_eq!(first, second);
    let parents: Vec<Option<usize>> = store.objects().iter().map(|o| o.parent).collect();
    assert_eq!(parents, vec![Some(2), None, Some(1), Some(2), Some(2)]);
}

#[test]
fn duplicate_identities_are_counted_and_the_last_wins() {
    let mut store = Transcriptome::new();
    store.add_object(gtf("transcript", 1, 100, "gene_id \"g1\"; transcript_id \"t1\";"));
    assert_eq!(store.duplicate_count(), 0);
    store.add_object(gtf("transcript", 200, 300, "gene_id \"g1\"; transcript_id \"t1\";"));
    assert_eq!(store.duplicate_count(), 1);
    assert_eq!(store.lookup("t1"), Some(1));
    assert_eq!(store.lookup("t2"), None);
    store.add_object(gtf("exon", 210, 220, "gene_id \"g1\"; transcript_id \"t1\";"));
    assert_eq!(store.duplicate_count(), 1);
    store.finalize().unwrap();
    assert_eq!(store.get(1).unwrap().children, vec![2]);
    assert!(store.get(0).unwrap().children.is_empty());
}

#[test]
fn access_is_bounds_checked() {
    let mut store = Transcriptome::new();
    assert!(store.get(0).is_none());
    assert!(store.get_mut(0).is_none());
    store.add_object(gtf("exon", 1, 50, "transcript_id \"t\";"));
    assert!(store.get(0).is_some());
    assert!(store.get(1).is_none());
    assert!(store.get_mut(1).is_none());
    assert!(matches!(
        store.set_type(4, Types::CDS),
        Err(GffError::IndexOutOfRange { index: 4 })
    ));
    assert!(matches!(
        store.set_attr(1, "k", "v".to_string()),
        Err(GffError::IndexOutOfRange { index: 1 })
    ));
    store.set_type(0, Types::CDS).unwrap();
    store.set_attr(0, "k", "v".to_string()).unwrap();
    assert_eq!(store.get(0).unwrap().g_type, Types::CDS);
    assert_eq!(store.get(0).unwrap().attrs.get("k").unwrap(), "v");
    store.get_mut(0).unwrap().strand = '-';
    assert_eq!(store.get(0).unwrap().strand, '-');
}

#[test]
fn overlap_and_containment_queries() {
    let mut store = Transcriptome::new();
    let a = store.add_object(gtf("exon", 100, 200, "transcript_id \"t\";"));
    let b = store.add_object(gtf("exon", 150, 250, "transcript_id \"t\";"));
    let hits = store.query_overlap("chr1", &Interval::new(140..160).unwrap());
    assert_eq!(hits, vec![a, b]);
    let inner = Interval::new(120..180).unwrap();
    assert_eq!(store.query_contains("chr1", &inner), vec![a]);
    assert!(store.query_overlap("chr2", &Interval::new(140..160).unwrap()).is_empty());
    assert!(store.query_overlap("chr1", &Interval::new(251..300).unwrap()).is_empty());
    assert_eq!(store.query_overlap("chr1", &Interval::new(250..300).unwrap()), vec![b]);
    assert_eq!(store.query_overlap("chr1", &Interval::new(0..100).unwrap()), vec![a]);
    assert_eq!(store.query_overlap("chr1", &Interval::new(200..200).unwrap()), vec![a, b]);
}

#[test]
fn queries_come_in_the_order_of_the_starts() {
    let mut store = Transcriptome::new();
    let mut starts = vec![900usize, 20, 500, 10, 700, 30, 300, 40, 100, 60, 800, 50];
    for (k, s) in starts.iter().enumerate() {
        let line = format!(
            "{}\ttest\texon\t{}\t{}\t.\t+\t.\ttranscript_id \"t\";",
            if k % 4 == 3 { "chr2" } else { "chr1" },
            s,
            s + 1000
        );
        store.add_object(GffObject::new(&line, false).unwrap());
    }
    let hits = store.query_overlap("chr1", &Interval::new(0..5000).unwrap());
    let mut want: Vec<usize> = (0..starts.len()).filter(|k| k % 4 != 3).collect();
    want.sort_by_key(|k| starts[*k]);
    assert_eq!(hits, want);
    let some = store.query_overlap("chr1", &Interval::new(0..99).unwrap());
    let mut few: Vec<usize> =
        (0..starts.len()).filter(|k| k % 4 != 3 && starts[*k] <= 99).collect();
    few.sort_by_key(|k| starts[*k]);
    assert_eq!(some, few);
    starts.clear();
}

#[test]
fn index_is_rebuilt_only_when_stale() {
    let mut store = Transcriptome::new();
    assert!(!store.is_indexed());
    assert_eq!(store.rebuild_count(), 0);
    store.build_index();
    assert!(store.is_indexed());
    assert_eq!(store.rebuild_count(), 1);
    store.build_index();
    assert_eq!(store.rebuild_count(), 1);
    assert!(store.query_overlap("chr1", &Interval::new(0..10).unwrap()).is_empty());
    assert_eq!(store.rebuild_count(), 1);
    store.add_object(gtf("exon", 1, 50, "transcript_id \"t\";"));
    assert!(!store.is_indexed());
    assert_eq!(store.query_overlap("chr1", &Interval::new(0..10).unwrap()), vec![0]);
    assert_eq!(store.rebuild_count(), 2);
    store.set_type(0, Types::CDS).unwrap();
    assert!(store.is_indexed());
    store.finalize().unwrap();
    assert!(store.is_indexed());
    store.get_mut(0).unwrap().interval = Interval::new(500..600).unwrap();
    assert!(!store.is_indexed());
    assert!(store.query_overlap("chr1", &Interval::new(0..10).unwrap()).is_empty());
    assert_eq!(store.query_overlap("chr1", &Interval::new(550..550).unwrap()), vec![0]);
    assert_eq!(store.rebuild_count(), 3);
}

#[test]
fn intervals_are_propagated_from_the_leaves() {
    let mut store = Transcriptome::new();
    store.add_object(gtf("gene", 1, 1000, "gene_id \"g1\";"));
    store.add_object(gtf("transcript", 1, 1000, "gene_id \"g1\"; transcript_id \"t1\";"));
    store.add_object(gtf("exon", 100, 200, "gene_id \"g1\"; transcript_id \"t1\";"));
    store.add_object(gtf("exon", 300, 450, "gene_id \"g1\"; transcript_id \"t1\";"));
    store.add_object(gtf("transcript", 1, 1000, "gene_id \"g1\"; transcript_id \"t2\";"));
    store.add_object(gtf("exon", 50, 60, "gene_id \"g1\"; transcript_id \"t2\";"));
    store.add_object(gtf("gene", 7, 9, "gene_id \"g2\";"));
    store.finalize().unwrap();
    store.build_index();
    store.reset_intervals();
    let spans: Vec<(usize, usize)> =
        store.objects().iter().map(|o| (o.interval.start(), o.interval.end())).collect();
    assert_eq!(
        spans,
        vec![(50, 450), (100, 450), (100, 200), (300, 450), (50, 60), (50, 60), (7, 9)]
    );
    assert!(!store.is_indexed());
    store.build_index();
    store.reset_intervals();
    let again: Vec<(usize, usize)> =
        store.objects().iter().map(|o| (o.interval.start(), o.interval.end())).collect();
    assert_eq!(spans, again);
    assert!(store.is_indexed());
}

#[test]
fn propagation_ends_on_a_cycle() {
    let mut store = Transcriptome::new();
    let a = "chr1\tt\tgene\t1\t10\t.\t+\t.\tID=a;Parent=b";
    let b = "chr1\tt\tgene\t20\t30\t.\t+\t.\tID=b;Parent=a";
    let c = "chr1\tt\texon\t40\t50\t.\t+\t.\tID=c;Parent=b";
    for line in [a, b, c] {
        store.add_object(GffObject::new(line, true).unwrap());
    }
    assert!(store.finalize().unwrap().is_empty());
    store.reset_intervals();
    let spans: Vec<(usize, usize)> =
        store.objects().iter().map(|o| (o.interval.start(), o.interval.end())).collect();
    assert_eq!(spans, vec![(40, 50), (40, 50), (40, 50)]);
    store.reset_intervals();
    let again: Vec<(usize, usize)> =
        store.objects().iter().map(|o| (o.interval.start(), o.interval.end())).collect();
    assert_eq!(spans, again);
}

#[test]
fn finalize_refuses_a_record_without_its_position() {
    let mut store = Transcriptome::new();
    store.add_object(gtf("transcript", 1, 100, "gene_id \"g1\"; transcript_id \"t1\";"));
    store.add_object(gtf("exon", 1, 50, "gene_id \"g1\"; transcript_id \"t1\";"));
    store.get_mut(1).unwrap().id = None;
    assert!(matches!(store.finalize(), Err(GffError::Unplaced { index: 1 })));
    assert!(store.get(0).unwrap().children.is_empty());
    store.get_mut(1).unwrap().id = Some(1);
    assert!(store.finalize().is_ok());
    assert_eq!(store.get(0).unwrap().children, vec![1]);
}

#[test]
fn parent_of_a_record_is_looked_up() {
    let mut store = Transcriptome::new();
    store.add_object(gtf("transcript", 1, 100, "gene_id \"g1\"; transcript_id \"t1\";"));
    let exon = gtf("exon", 1, 50, "gene_id \"g1\"; transcript_id \"t1\";");
    assert_eq!(store.create_parent(&exon).unwrap(), 0);
    let orphan = gtf("exon", 1, 50, "gene_id \"g1\"; transcript_id \"t9\";");
    assert!(matches!(store.create_parent(&orphan), Err(GffError::NoParent)));
    let gene = gtf("gene", 1, 50, "gene_id \"g1\";");
    assert!(matches!(store.create_parent(&gene), Err(GffError::NoParent)));
    assert_eq!(store.len(), 1);
}

#[test]
fn reading_stops_at_the_first_rejected_line() {
    let lines = lines_of(&[
        "chr1\ttest\ttranscript\t1\t100\t.\t+\t.\tgene_id \"g\"; transcript_id \"t\";",
        "chr1\ttest\texon\t1\t100\t.\t+\t.\tgene_id \"g\"; transcript_id \"t\";",
        "chr1\ttest\texon\t90\t10\t.\t+\t.\tgene_id \"g\"; transcript_id \"t\";",
        "chr1\ttest\texon\t1\t100\t.\t+\t.\tgene_id \"g\"; transcript_id \"t\";",
    ]);
    let mut store = Transcriptome::new();
    let res = store.add_from_file("bad.gtf", lines.clone());
    assert!(matches!(res, Err(GffError::MalformedLine { .. })));
    assert_eq!(store.len(), 2);
    assert!(!store.is_indexed());
    assert!(Transcriptome::from_file("bad.gtf", lines).is_err());
    let none = store.add_from_file("none.gtf", lines_of(&["# only a comment"]));
    assert!(matches!(none, Err(GffError::FormatAmbiguous { .. })));
    assert_eq!(store.len(), 2);
}

#[test]
fn equal_starts_come_in_arena_order() {
    let mut store = Transcriptome::new();
    let starts = [5usize, 3, 5, 1, 3, 5, 1, 3, 5, 5, 1, 3, 3, 5, 1, 1, 5, 3, 1, 5, 3, 1, 5, 3];
    for (k, s) in starts.iter().enumerate() {
        store.add_object(gtf("exon", *s, 10 + k, "transcript_id \"t\";"));
    }
    let hits = store.query_overlap("chr1", &Interval::new(0..100).unwrap());
    let mut want: Vec<usize> = (0..starts.len()).collect();
    want.sort_by_key(|k| (starts[*k], *k));
    assert_eq!(hits, want);
    let inner = store.query_contains("chr1", &Interval::new(5..12).unwrap());
    let kept: Vec<usize> =
        want.iter().copied().filter(|k| starts[*k] <= 5 && 10 + *k >= 12).collect();
    assert_eq!(inner, kept);
}
