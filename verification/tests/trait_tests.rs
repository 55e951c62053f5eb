use ganlib::exon::Exon;
use ganlib::group::{GffObjectGroupT, Transcriptome};
use ganlib::interval::Interval;
use ganlib::object::{contains, overlaps, GffObject, GffObjectT};
use ganlib::transcript::TranscriptRef;
use ganlib::utils::Types;

fn gtf(seq: &str, kind: &str, start: usize, end: usize, attrs: &str) -> GffObject {
    let line = format!("{}\ttest\t{}\t{}\t{}\t.\t+\t.\t{}", seq, kind, start, end, attrs);
    GffObject::new(&line, false).unwrap()
}

fn describe<T: GffObjectT>(f: &T) -> (String, char, Types, String, usize, usize, usize, usize) {
    (
        f.seqid().to_string(),
        f.strand(),
        f.get_type(),
        f.source().to_string(),
        f.interval().start(),
        f.interval().end(),
        f.get_attrs().len(),
        f.children().len(),
    )
}

#[test]
fn features_are_read_through_one_interface() {
    let record = gtf("chr1", "exon", 10, 20, "gene_id \"g\"; transcript_id \"t\";");
    let exon = Exon::from(record.clone());
    let want = ("chr1".to_string(), '+', Types::Exon, "test".to_string(), 10, 20, 2, 0);
    assert_eq!(describe(&record), want);
    assert_eq!(describe(&exon), want);
    assert_eq!(GffObjectT::len(&record), 11);
    assert_eq!(GffObjectT::phase(&exon), None);
    assert_eq!(GffObjectT::get_attr(&exon, "gene_id").unwrap(), "g");
    assert!(GffObjectT::get_attr(&exon, "none").is_none());

    let mut store = Transcriptome::new();
    store.add_object(gtf("chr1", "transcript", 1, 100, "gene_id \"g\"; transcript_id \"t\";"));
    store.add_object(record);
    store.finalize().unwrap();
    let mut handle = store.get_transcript(0).unwrap();
    assert_eq!(
        describe(&handle),
        ("chr1".to_string(), '+', Types::Transcript, "test".to_string(), 1, 100, 2, 1)
    );
    assert_eq!(GffObjectT::children(&handle), &[1]);
    GffObjectT::set_type(&mut handle, Types::Gene);
    GffObjectT::set_attr(&mut handle, "note", "n".to_string());
    assert_eq!(handle.get_type(), Types::Gene);
    assert_eq!(handle.get_attrs().get("note").unwrap(), "n");
    assert_eq!(handle.seqid(), "chr1");
    assert_eq!(handle.strand(), '+');
    assert_eq!(handle.source(), "test");
    assert_eq!(handle.interval().end(), 100);
    assert_eq!(handle.children(), &vec![1]);
    assert_eq!(handle.phase(), None);
    assert_eq!(handle.get().id, Some(0));
    handle.set_type(Types::Transcript).unwrap();
    handle.set_attr("note", "m".to_string()).unwrap();
    assert_eq!(store.get(0).unwrap().g_type, Types::Transcript);
    assert_eq!(store.get(0).unwrap().attrs.get("note").unwrap(), "m");
    let mut loose = TranscriptRef::new(&mut store, 9);
    assert!(loose.set_type(Types::CDS).is_err());
    assert!(loose.set_attr("k", "v".to_string()).is_err());
}

#[test]
fn features_of_any_kind_overlap() {
    let a = gtf("chr1", "exon", 100, 200, "gene_id \"g\";");
    let b = Exon::from(gtf("chr1", "exon", 150, 250, "gene_id \"g\";"));
    let c = Exon::from(gtf("chr2", "exon", 150, 250, "gene_id \"g\";"));
    let d = Exon::from(gtf("chr1", "exon", 120, 180, "gene_id \"g\";"));
    assert!(overlaps(&a, &b));
    assert!(overlaps(&b, &a));
    assert!(!overlaps(&a, &c));
    assert!(contains(&a, &d));
    assert!(!contains(&d, &a));
    assert!(!contains(&a, &b));
    let mut e = Exon::new();
    GffObjectT::set_type(&mut e, Types::CDS);
    GffObjectT::set_attr(&mut e, "k", "v".to_string());
    assert_eq!(e.get_type(), Types::CDS);
    assert_eq!(e.get_attrs().get("k").unwrap(), "v");
}

fn fill<G: GffObjectGroupT<Object = GffObject>>() -> G {
    let mut group = G::new();
    let first = group.add_object(gtf("chr1", "gene", 1, 9, "gene_id \"g\";"));
    let second = group.add_object(gtf("chr1", "exon", 2, 3, "transcript_id \"t\";"));
    assert_eq!((first, second), (0, 1));
    assert_eq!(group.objects().len(), 2);
    assert_eq!(group.get(1).unwrap().id, Some(1));
    assert!(group.get(2).is_none());
    group.get_mut(1).unwrap().strand = '-';
    assert!(group.get_mut(2).is_none());
    group
}

#[test]
fn a_store_is_a_group() {
    let mut store: Transcriptome = fill();
    assert_eq!(store.get(1).unwrap().strand, '-');
    assert_eq!(store.anomalies(), vec![]);
    store.add_object(gtf("chr1", "exon", 2, 3, "gene_id \"g\";"));
    store.add_object(gtf("chr1", "gene", 2, 3, "gene_name \"n\";"));
    assert_eq!(store.anomalies(), vec![2]);
    assert_eq!(
        store.query_overlap("chr1", &Interval::new(2..2).unwrap()),
        vec![0, 1, 2, 3]
    );
}
