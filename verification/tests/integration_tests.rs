use ganlib::prelude::{GffObject, TReader, Types};

fn lines_of(text: &[&str]) -> Vec<String> {
    text.iter().map(|l| l.to_string()).collect()
}

#[test]
fn test_main() {
    let first = lines_of(&[
        "# first file",
        "chr1\ttest\tgene\t1\t100\t.\t+\t.\tgene_id \"g1\";",
        "chr1\ttest\ttranscript\t1\t100\t.\t+\t.\tgene_id \"g1\"; transcript_id \"t1\";",
        "chr1\ttest\texon\t1\t100\t.\t+\t.\tgene_id \"g1\"; transcript_id \"t1\";",
    ]);
    let second = lines_of(&[
        "chr2\ttest\ttranscript\t5\t50\t.\t-\t.\tgene_id \"g2\"; transcript_id \"t2\";",
        "chr2\ttest\texon\t5\t50\t.\t-\t.\tgene_id \"g2\"; transcript_id \"t2\";",
    ]);
    let mut treader = ganlib::TReader::new(Some(("data/test.gtf", first))).unwrap();
    treader.add("data/test2.gtf", second).unwrap();
    let mut seen: Vec<GffObject> = Vec::new();
    while let Some(gffobj) = treader.next() {
        let gffobj = gffobj.unwrap();
        println!("{:?}", gffobj);
        seen.push(gffobj);
    }
    let kinds: Vec<Types> = seen.iter().map(|o| o.g_type).collect();
    assert_eq!(
        kinds,
        vec![Types::Gene, Types::Transcript, Types::Exon, Types::Transcript, Types::Exon]
    );
    assert_eq!(seen[4].seqid, "chr2");
    let empty: TReader = TReader::default();
    drop(empty);
}

#[test]
fn a_line_tells_its_own_dialect() {
    let gff = GffObject::try_from("chr1\ttest\texon\t1\t100\t.\t+\t.\tID=e1;Parent=t1").unwrap();
    assert_eq!(gff.parent_id_str, Some("t1".to_string()));
    let gtf = GffObject::try_from(
        "chr1\ttest\texon\t1\t100\t.\t+\t.\tgene_id \"g1\"; transcript_id \"t1\";",
    )
    .unwrap();
    assert_eq!(gtf.parent_id_str, Some("t1".to_string()));
    assert_eq!(gtf.id_str, None);
    assert!(GffObject::try_from("chr1\ttest\texon\t1\t100\t.\t+\t.\tkey=value").is_err());
    assert!(GffObject::try_from("# comment").is_err());
}
