use ganlib::error::{FormatFault, GffError};
use ganlib::group::Transcriptome;
use ganlib::object::GffObject;
use ganlib::transcript::TranscriptRef;
use ganlib::treader::{detect_dialect, STReader, TReader};
use ganlib::utils::Types;

fn lines_of(text: &[&str]) -> Vec<String> {
    text.iter().map(|l| l.to_string()).collect()
}

fn test_gff() -> Vec<String> {
    lines_of(&[
        "##gff-version 3",
        "# comment",
        "chr1\ttest\ttranscript\t1\t100\t.\t+\t.\tID=transcript1",
        "chr1\ttest\texon\t1\t100\t.\t+\t.\tID=exon1;Parent=transcript1",
        "chr1\ttest\ttranscript\t1\t100\t.\t+\t.\ttranscript_id=transcript2",
        "chr1\ttest\texon\t1\t100\t.\t+\t.\ttranscript_id=transcript2",
    ])
}

#[test]
fn test_streader() {
    let fname = "test.gff";
    let mut reader = STReader::new(fname, test_gff()).unwrap();
    assert_eq!(reader.is_gff(), true);
    let first = reader.next().unwrap();
    assert_eq!(first, "chr1\ttest\ttranscript\t1\t100\t.\t+\t.\tID=transcript1");
}

#[test]
fn test_treader() {
    let mut treader = TReader::new(Some(("test.gff", test_gff()))).unwrap();
    treader.add("test2.gff", test_gff()).unwrap();
    let mut count = 0;
    while let Some(item) = treader.next() {
        assert!(item.is_ok());
        count += 1;
    }
    assert_eq!(count, 8);
}

#[test]
fn test_streader_with_invalid_format() {
    let fname = "invalid.gff";
    let lines = lines_of(&["invalid\tline\twithout\tnine\tcolumns", "another invalid line"]);
    let reader_result = STReader::new(fname, lines);
    assert!(reader_result.is_err(), "Invalid file format should return an error");
}

#[test]
fn test_treader_iterator_behavior() {
    let fname = "iterator_test.gff";
    let lines = lines_of(&[
        "##gff-version 3",
        "chr1\ttest\ttranscript\t1\t100\t.\t+\t.\tID=transcript1",
        "chr1\ttest\texon\t1\t100\t.\t+\t.\tID=exon1;Parent=transcript1",
    ]);

    let mut treader = TReader::new(Some((fname, lines))).unwrap();
    let mut count = 0;
    while let Some(item) = treader.next() {
        println!("{:?}", item);
        count += 1;
    }

    assert_eq!(count, 2, "Should iterate over all lines");
}

#[test]
fn test_transcript_ref() {
    let mut parent = Transcriptome::new();
    let tline = "chr1\ttest\ttranscript\t1\t100\t.\t+\t.\tgene_id \"test\"; transcript_id \"test\";";
    let tid = parent.add_object(GffObject::new(tline, false).unwrap());
    let eline = "chr1\ttest\texon\t1\t100\t.\t+\t.\tgene_id \"test\"; transcript_id \"test\";";
    let eid = parent.add_object(GffObject::new(eline, false).unwrap());
    parent.finalize().unwrap();
    let mut tref = parent.get_transcript(tid).unwrap();
    println!("{}", tref.to_string());
    tref.change_exon_type(Types::Other);
    println!("{}", tref.to_string());
    assert_eq!(tref.to_string(), "TranscriptRef: { tid: 0 }");
    assert_eq!(parent.get(eid).unwrap().g_type, Types::Other);
    assert_eq!(parent.get(tid).unwrap().g_type, Types::Transcript);
    assert!(parent.get_transcript(2).is_none());
    let mut loose = TranscriptRef::new(&mut parent, 7);
    loose.change_exon_type(Types::CDS);
    assert_eq!(parent.get(eid).unwrap().g_type, Types::Other);
}

#[test]
fn detection_reads_the_first_transcript_line() {
    assert_eq!(detect_dialect(&test_gff()), Ok(true));
    let gtf = lines_of(&[
        "",
        "# comment",
        "chr1\ttest\tgene\t1\t100\t.\t+\t.\tgene_id \"g\";",
        "chr1\ttest\tTranscript\t1\t100\t.\t+\t.\tgene_id \"g\"; transcript_id \"t\";",
    ]);
    assert_eq!(detect_dialect(&gtf), Ok(false));
    let no_transcript = lines_of(&["chr1\ttest\tgene\t1\t100\t.\t+\t.\tgene_id \"g\";"]);
    assert_eq!(detect_dialect(&no_transcript), Err((FormatFault::NoTranscript, 1)));
    assert_eq!(detect_dialect(&Vec::new()), Err((FormatFault::NoTranscript, 0)));
    let short = lines_of(&["# c", "chr1\ttest\tgene\t1\t100"]);
    assert_eq!(detect_dialect(&short), Err((FormatFault::ColumnCount, 1)));
    let neither = lines_of(&["chr1\ttest\ttranscript\t1\t100\t.\t+\t.\ttranscript_id=t2"]);
    assert_eq!(detect_dialect(&neither), Err((FormatFault::Neither, 0)));
}

#[test]
fn detection_failures_carry_the_line_or_the_file() {
    let short = lines_of(&["# c", "chr1\ttest\tgene\t1\t100"]);
    match STReader::new("short.gff", short) {
        Err(GffError::FormatAmbiguous { text, reason }) => {
            assert_eq!(text, "chr1\ttest\tgene\t1\t100");
            assert_eq!(reason, FormatFault::ColumnCount);
        }
        _ => panic!("expected a failure"),
    }
    match STReader::new("empty.gff", Vec::new()) {
        Err(GffError::FormatAmbiguous { text, reason }) => {
            assert_eq!(text, "empty.gff");
            assert_eq!(reason, FormatFault::NoTranscript);
        }
        _ => panic!("expected a failure"),
    }
}

#[test]
fn detection_loses_no_line() {
    let mut reader = STReader::new("test.gff", test_gff()).unwrap();
    let mut after = Vec::new();
    while let Some(line) = reader.next() {
        after.push(line);
    }
    let want: Vec<String> = test_gff().into_iter().filter(|l| !l.starts_with('#')).collect();
    assert_eq!(after, want);
    assert!(reader.next().is_none());
    reader._set_gff().unwrap();
    assert_eq!(reader.next().unwrap(), want[0]);
}

#[test]
fn files_are_read_one_after_the_other_in_their_own_dialect() {
    let gff = lines_of(&[
        "chr1\ttest\ttranscript\t1\t100\t.\t+\t.\tID=t1",
        "",
        "chr1\ttest\texon\t1\t100\t.\t+\t.\tID=e1;Parent=t1",
    ]);
    let gtf = lines_of(&[
        "# second file",
        "chr2\ttest\ttranscript\t5\t50\t.\t-\t.\tgene_id \"g\"; transcript_id \"t2\";",
    ]);
    let mut treader = TReader::new(None).unwrap();
    assert!(treader.next().is_none());
    treader.add("a.gff", gff).unwrap();
    treader.add("b.gtf", gtf).unwrap();
    assert!(treader.add("c.gtf", lines_of(&["# nothing"])).is_err());
    let mut seen = Vec::new();
    while let Some(item) = treader.next() {
        let obj = item.unwrap();
        seen.push((obj.seqid.clone(), obj.id_str.clone(), obj.parent_id_str.clone()));
    }
    assert_eq!(
        seen,
        vec![
            ("chr1".to_string(), Some("t1".to_string()), None),
            ("chr1".to_string(), Some("e1".to_string()), Some("t1".to_string())),
            ("chr2".to_string(), Some("t2".to_string()), Some("g".to_string())),
        ]
    );
    assert!(treader.next().is_none());
}

#[test]
fn a_rejected_line_ends_the_stream() {
    let lines = lines_of(&[
        "chr1\ttest\ttranscript\t1\t100\t.\t+\t.\tID=t1",
        "chr1\ttest\texon\t9\t1\t.\t+\t.\tID=e1;Parent=t1",
        "chr1\ttest\texon\t1\t100\t.\t+\t.\tID=e2;Parent=t1",
    ]);
    let mut treader = TReader::new(Some(("a.gff", lines))).unwrap();
    assert!(treader.next().unwrap().is_ok());
    assert!(matches!(treader.next(), Some(Err(GffError::MalformedLine { .. }))));
    assert!(treader.next().is_none());
}
