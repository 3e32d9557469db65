use mgt::export_parser::{
    parse_git_filter_export, resolve_thread_count, workers_for, write_person_info,
    write_to_stream, ExportParseError, ReorderBuffer, WaitObj,
};
use mgt::structured_parse::{
    CommitPersonOwned, ParseError, StructuredExportObject, StructuredObjectType,
};
use mgt::unstructured_parse::TokenizeError;

fn commit_bytes(mark: u64, parents: &[u64], with_author: bool, msg: &str) -> Vec<u8> {
    let mut v = Vec::new();
    v.extend_from_slice(b"commit refs/heads/master\n");
    v.extend_from_slice(b"mark :");
    v.extend_from_slice(mark.to_string().as_bytes());
    v.extend_from_slice(b"\n");
    v.extend_from_slice(b"original-oid aabbcc");
    v.extend_from_slice(mark.to_string().as_bytes());
    v.extend_from_slice(b"\n");
    if with_author {
        v.extend_from_slice(b"author An Author <author@example.com> 1600000000 +0000\n");
    }
    v.extend_from_slice(b"committer A Committer <committer@example.com> 1600000001 +0000\n");
    v.extend_from_slice(b"data ");
    v.extend_from_slice(msg.len().to_string().as_bytes());
    v.extend_from_slice(b"\n");
    v.extend_from_slice(msg.as_bytes());
    v.extend_from_slice(b"\n");
    for (i, p) in parents.iter().enumerate() {
        if i == 0 {
            v.extend_from_slice(b"from :");
        } else {
            v.extend_from_slice(b"merge :");
        }
        v.extend_from_slice(p.to_string().as_bytes());
        v.extend_from_slice(b"\n");
    }
    v.extend_from_slice(b"\n");
    v
}

fn blob_bytes(mark: u64, payload: &[u8]) -> Vec<u8> {
    let mut v = Vec::new();
    v.extend_from_slice(b"blob\n");
    v.extend_from_slice(b"mark :");
    v.extend_from_slice(mark.to_string().as_bytes());
    v.extend_from_slice(b"\n");
    v.extend_from_slice(b"original-oid ddeeff");
    v.extend_from_slice(mark.to_string().as_bytes());
    v.extend_from_slice(b"\n");
    v.extend_from_slice(b"data ");
    v.extend_from_slice(payload.len().to_string().as_bytes());
    v.extend_from_slice(b"\n");
    v.extend_from_slice(payload);
    v.extend_from_slice(b"\n");
    v
}

fn mark_of(obj: &StructuredExportObject) -> u64 {
    match &obj.object_type {
        StructuredObjectType::Commit(c) => c.mark,
        StructuredObjectType::Blob(b) => b.mark,
    }
}

fn contains_sub(hay: &[u8], needle: &[u8]) -> Option<usize> {
    if needle.len() > hay.len() {
        return None;
    }
    for i in 0..=(hay.len() - needle.len()) {
        if &hay[i..i + needle.len()] == needle {
            return Some(i);
        }
    }
    None
}

#[test]
fn sequential_parse_keeps_stream_order() {
    let mut stream = Vec::new();
    stream.extend_from_slice(&commit_bytes(1, &[], true, "first"));
    stream.extend_from_slice(&commit_bytes(2, &[1], true, "second"));
    stream.extend_from_slice(&commit_bytes(3, &[2], false, "third"));
    let objs = parse_git_filter_export(&stream).unwrap();
    assert_eq!(objs.len(), 3);
    let marks: Vec<u64> = objs.iter().map(mark_of).collect();
    assert_eq!(marks, vec![1, 2, 3]);
}

#[test]
fn using_multiple_parsing_threads_keeps_order_the_same() {
    // three commits, arriving at the reassembly stage in the scrambled
    // order a pool of four workers might produce them
    let mut stream = Vec::new();
    stream.extend_from_slice(&commit_bytes(1, &[], false, "a"));
    stream.extend_from_slice(&commit_bytes(2, &[1], false, "b"));
    stream.extend_from_slice(&commit_bytes(3, &[2], false, "c"));
    let objs = parse_git_filter_export(&stream).unwrap();
    let mut buffer = ReorderBuffer::new();
    let mut delivered: Vec<StructuredExportObject> = Vec::new();
    for (idx, obj) in [(2usize, objs[2].clone()), (0, objs[0].clone()), (1, objs[1].clone())] {
        delivered.extend(buffer.accept(idx, obj));
    }
    let marks: Vec<u64> = delivered.iter().map(mark_of).collect();
    assert_eq!(marks, vec![1, 2, 3]);
}

#[test]
fn using_blobs_and_multiple_parsing_threads_keeps_order_the_same() {
    let mut stream = Vec::new();
    stream.extend_from_slice(&commit_bytes(1, &[], false, "a"));
    stream.extend_from_slice(&blob_bytes(2, b"blob body"));
    stream.extend_from_slice(&commit_bytes(3, &[1], false, "b"));
    stream.extend_from_slice(&blob_bytes(4, b"more"));
    stream.extend_from_slice(&commit_bytes(5, &[3], false, "c"));
    let objs = parse_git_filter_export(&stream).unwrap();
    let mut buffer = ReorderBuffer::new();
    let mut delivered: Vec<StructuredExportObject> = Vec::new();
    for (idx, obj) in [
        (4usize, objs[4].clone()),
        (1, objs[1].clone()),
        (3, objs[3].clone()),
        (0, objs[0].clone()),
        (2, objs[2].clone()),
    ] {
        delivered.extend(buffer.accept(idx, obj));
    }
    let marks: Vec<u64> = delivered.iter().map(mark_of).collect();
    assert_eq!(marks, vec![1, 2, 3, 4, 5]);
}

#[test]
fn parallelism_invariance_across_arrival_orders() {
    let mut stream = Vec::new();
    for m in 1..=4u64 {
        stream.extend_from_slice(&commit_bytes(m, &[], false, "x"));
    }
    let objs = parse_git_filter_export(&stream).unwrap();
    let orders: [[usize; 4]; 3] = [[0, 1, 2, 3], [3, 2, 1, 0], [1, 3, 0, 2]];
    let mut outputs: Vec<Vec<u64>> = Vec::new();
    for order in orders {
        let mut buffer = ReorderBuffer::new();
        let mut delivered = Vec::new();
        for idx in order {
            delivered.extend(buffer.accept(idx, objs[idx].clone()));
        }
        outputs.push(delivered.iter().map(mark_of).collect());
    }
    assert_eq!(outputs[0], vec![1, 2, 3, 4]);
    assert_eq!(outputs[0], outputs[1]);
    assert_eq!(outputs[0], outputs[2]);
}

#[test]
fn releases_are_always_a_prefix_in_order() {
    // fail-fast: a consumer that stops after position k can never have
    // seen anything past k, whatever already arrived
    let mut stream = Vec::new();
    for m in 1..=5u64 {
        stream.extend_from_slice(&commit_bytes(m, &[], false, "x"));
    }
    let objs = parse_git_filter_export(&stream).unwrap();
    let mut buffer = ReorderBuffer::new();
    let mut delivered: Vec<u64> = Vec::new();
    for idx in [4usize, 3, 2, 1] {
        let batch = buffer.accept(idx, objs[idx].clone());
        assert!(batch.is_empty());
    }
    let batch = buffer.accept(0, objs[0].clone());
    delivered.extend(batch.iter().map(mark_of));
    assert_eq!(delivered, vec![1, 2, 3, 4, 5]);
}

#[test]
fn works_with_blobs() {
    let payload: &[u8] = b"line one\nline two\n\x00\xff binary tail";
    let stream = blob_bytes(7, payload);
    let objs = parse_git_filter_export(&stream).unwrap();
    assert_eq!(objs.len(), 1);
    match &objs[0].object_type {
        StructuredObjectType::Blob(b) => {
            assert_eq!(b.mark, 7);
            assert_eq!(b.data, payload.to_vec());
        },
        _ => panic!("expected a blob"),
    }
    assert_eq!(objs[0].data_size, payload.len().to_string());
}

#[test]
fn blob_round_trip_is_byte_exact() {
    let payload: &[u8] = b"some\nbinary\n\x01\x02\x03 payload";
    let stream = blob_bytes(42, payload);
    let objs = parse_git_filter_export(&stream).unwrap();
    let mut out = Vec::new();
    write_to_stream(&mut out, objs.into_iter().next().unwrap());
    assert_eq!(out, stream);
}

#[test]
fn commit_round_trip_with_ascii_message() {
    let stream = commit_bytes(9, &[3, 5], true, "a message\n\nwith body");
    let objs = parse_git_filter_export(&stream).unwrap();
    let mut out = Vec::new();
    write_to_stream(&mut out, objs.into_iter().next().unwrap());
    assert_eq!(out, stream);
}

#[test]
fn merge_ordering_is_preserved() {
    let stream = commit_bytes(10, &[7, 8, 9], false, "merge");
    let objs = parse_git_filter_export(&stream).unwrap();
    let commit = match &objs[0].object_type {
        StructuredObjectType::Commit(c) => c.clone(),
        _ => panic!("expected a commit"),
    };
    assert_eq!(commit.merges, vec![7, 8, 9]);
    let mut out = Vec::new();
    write_to_stream(&mut out, objs.into_iter().next().unwrap());
    let from_pos = contains_sub(&out, b"from :7\n").expect("from line");
    let merge8_pos = contains_sub(&out, b"merge :8\n").expect("first merge line");
    let merge9_pos = contains_sub(&out, b"merge :9\n").expect("second merge line");
    assert!(from_pos < merge8_pos && merge8_pos < merge9_pos);
}

#[test]
fn optional_author_is_omitted() {
    let stream = commit_bytes(1, &[], false, "nobody signed this");
    let objs = parse_git_filter_export(&stream).unwrap();
    let commit = match &objs[0].object_type {
        StructuredObjectType::Commit(c) => c.clone(),
        _ => panic!("expected a commit"),
    };
    assert!(commit.author.is_none());
    let mut out = Vec::new();
    write_to_stream(&mut out, objs.into_iter().next().unwrap());
    assert!(contains_sub(&out, b"author ").is_none());
    assert!(contains_sub(&out, b"committer ").is_some());
}

#[test]
fn author_is_kept_when_present() {
    let stream = commit_bytes(1, &[], true, "authored");
    let objs = parse_git_filter_export(&stream).unwrap();
    let commit = match &objs[0].object_type {
        StructuredObjectType::Commit(c) => c.clone(),
        _ => panic!("expected a commit"),
    };
    let author = commit.author.expect("author should be kept");
    assert_eq!(author.name.as_deref(), Some("An Author"));
    assert_eq!(author.email, "author@example.com");
    assert_eq!(author.timestr, "1600000000 +0000");
    assert_eq!(commit.committer.email, "committer@example.com");
}

#[test]
fn lossy_decoding_replaces_invalid_message_bytes() {
    let mut stream = Vec::new();
    stream.extend_from_slice(b"commit refs/heads/master\n");
    stream.extend_from_slice(b"mark :1\n");
    stream.extend_from_slice(b"original-oid abc\n");
    stream.extend_from_slice(b"committer C <c@d.e> 1 +0000\n");
    stream.extend_from_slice(b"data 1\n\xff\n\n");
    let objs = parse_git_filter_export(&stream).unwrap();
    match &objs[0].object_type {
        StructuredObjectType::Commit(c) => {
            assert_eq!(c.commit_message, "\u{FFFD}");
        },
        _ => panic!("expected a commit"),
    }
}

#[test]
fn bad_data_length_is_a_tokenize_error() {
    let stream = b"blob\nmark :1\ndata abc\n".to_vec();
    let err = parse_git_filter_export(&stream).unwrap_err();
    assert_eq!(err, ExportParseError::Tokenize(TokenizeError::InvalidDataLength));
    let too_big = b"blob\nmark :1\ndata 18446744073709551616\n".to_vec();
    let err2 = parse_git_filter_export(&too_big).unwrap_err();
    assert_eq!(err2, ExportParseError::Tokenize(TokenizeError::InvalidDataLength));
}

#[test]
fn truncated_payload_is_a_tokenize_error() {
    let stream = b"blob\nmark :1\noriginal-oid a\ndata 10\nabc".to_vec();
    let err = parse_git_filter_export(&stream).unwrap_err();
    assert_eq!(err, ExportParseError::Tokenize(TokenizeError::UnexpectedEof));
}

#[test]
fn structure_errors_name_what_is_missing() {
    let no_main = b"reset refs/heads/x\n\n".to_vec();
    assert_eq!(
        parse_git_filter_export(&no_main).unwrap_err(),
        ExportParseError::Parse(ParseError::MissingCommand)
    );
    let bad_mark = b"blob\nmark :xyz\noriginal-oid a\ndata 0\n\n".to_vec();
    assert_eq!(
        parse_git_filter_export(&bad_mark).unwrap_err(),
        ExportParseError::Parse(ParseError::BadMark)
    );
    let bad_person =
        b"commit r\nmark :1\noriginal-oid a\ncommitter nobody\ndata 0\n\n\n".to_vec();
    assert_eq!(
        parse_git_filter_export(&bad_person).unwrap_err(),
        ExportParseError::Parse(ParseError::BadPersonLine)
    );
    let missing_mark = b"commit r\noriginal-oid a\ncommitter C <c@d> 1 +0000\ndata 0\n\n\n".to_vec();
    assert_eq!(
        parse_git_filter_export(&missing_mark).unwrap_err(),
        ExportParseError::Parse(ParseError::MissingMark)
    );
    let bad_merge = b"commit r\nmark :1\noriginal-oid a\ncommitter C <c@d> 1 +0000\ndata 0\n\nfrom :zz\n\n".to_vec();
    assert_eq!(
        parse_git_filter_export(&bad_merge).unwrap_err(),
        ExportParseError::Parse(ParseError::BadMergeMark)
    );
    let bad_fileop = b"commit r\nmark :1\noriginal-oid a\ncommitter C <c@d> 1 +0000\ndata 0\n\nM onlymode\n\n".to_vec();
    assert_eq!(
        parse_git_filter_export(&bad_fileop).unwrap_err(),
        ExportParseError::Parse(ParseError::BadFileOp)
    );
}

#[test]
fn fileops_and_resets_round_trip() {
    let mut stream = Vec::new();
    stream.extend_from_slice(b"feature done\n");
    stream.extend_from_slice(b"reset refs/heads/target\n");
    stream.extend_from_slice(b"from :3\n");
    stream.extend_from_slice(b"\n");
    stream.extend_from_slice(b"commit refs/heads/target\n");
    stream.extend_from_slice(b"mark :4\n");
    stream.extend_from_slice(b"original-oid 1234\n");
    stream.extend_from_slice(b"committer C <c@d.e> 1 +0000\n");
    stream.extend_from_slice(b"data 2\nhi\n");
    stream.extend_from_slice(b"M 100644 :2 some/path name.txt\n");
    stream.extend_from_slice(b"D gone.txt\n");
    stream.extend_from_slice(b"C a.txt b.txt\n");
    stream.extend_from_slice(b"R c.txt d.txt\n");
    stream.extend_from_slice(b"deleteall\n");
    stream.extend_from_slice(b"N :5 :4\n");
    stream.extend_from_slice(b"\n");
    let objs = parse_git_filter_export(&stream).unwrap();
    assert_eq!(objs.len(), 1);
    assert!(objs[0].has_feature_done);
    assert_eq!(objs[0].has_reset.as_deref(), Some("refs/heads/target"));
    assert_eq!(objs[0].has_reset_from.as_deref(), Some(":3"));
    let mut out = Vec::new();
    write_to_stream(&mut out, objs.into_iter().next().unwrap());
    assert_eq!(out, stream);
}

#[test]
fn person_line_writer_matches_wire_format() {
    let person = CommitPersonOwned {
        name: Some("A Name".to_string()),
        email: "x@y.z".to_string(),
        timestr: "5 +0000".to_string(),
    };
    let mut out = Vec::new();
    write_person_info(&mut out, &person, true);
    assert_eq!(out, b"author A Name <x@y.z> 5 +0000\n".to_vec());
    let nameless = CommitPersonOwned {
        name: None,
        email: "x@y.z".to_string(),
        timestr: "5 +0000".to_string(),
    };
    let mut out2 = Vec::new();
    write_person_info(&mut out2, &nameless, false);
    assert_eq!(out2, b"committer <x@y.z> 5 +0000\n".to_vec());
}

#[test]
fn wait_obj_orders_by_index() {
    let a = WaitObj { index: 1, obj: make_empty_blob(1) };
    let b = WaitObj { index: 2, obj: make_empty_blob(2) };
    assert!(a < b);
    assert!(a == WaitObj { index: 1, obj: make_empty_blob(9) });
}

fn make_empty_blob(mark: u64) -> StructuredExportObject {
    let objs = parse_git_filter_export(&blob_bytes(mark, b"")).unwrap();
    objs.into_iter().next().unwrap()
}

#[test]
fn thread_count_resolution() {
    assert_eq!(resolve_thread_count(Some(7)), 7);
    assert!(resolve_thread_count(None) >= 1);
}

#[test]
fn stray_from_line_without_reset_is_ignored() {
    let mut stream = Vec::new();
    stream.extend_from_slice(b"from :9\n");
    stream.extend_from_slice(&commit_bytes(1, &[], false, "x"));
    let objs = parse_git_filter_export(&stream).unwrap();
    assert_eq!(objs[0].has_reset, None);
    assert_eq!(objs[0].has_reset_from, None);
}

#[test]
fn reset_from_is_only_written_under_a_reset() {
    // an object carrying a reset-from but no reset target serializes
    // without any from line, and without a reset block
    let source = commit_bytes(3, &[], false, "y");
    let objs = parse_git_filter_export(&source).unwrap();
    let mut obj = objs.into_iter().next().unwrap();
    obj.has_reset_from = Some(":2".to_string());
    let mut out = Vec::new();
    write_to_stream(&mut out, obj);
    assert!(contains_sub(&out, b"from :2").is_none());
    assert!(contains_sub(&out, b"reset ").is_none());
}

#[test]
fn worker_pool_sizing() {
    assert_eq!(workers_for(0), 1);
    assert_eq!(workers_for(1), 1);
    assert_eq!(workers_for(2), 1);
    assert_eq!(workers_for(3), 1);
    assert_eq!(workers_for(8), 6);
}

#[test]
fn buffer_reports_expected_and_held_positions() {
    let objs = parse_git_filter_export(&commit_bytes(1, &[], false, "z")).unwrap();
    let mut buffer = ReorderBuffer::new();
    assert_eq!(buffer.next_expected(), 0);
    assert!(!buffer.holds_index(3));
    let none = buffer.accept(3, objs[0].clone());
    assert!(none.is_empty());
    assert!(buffer.holds_index(3));
    assert_eq!(buffer.next_expected(), 0);
    let released = buffer.accept(0, objs[0].clone());
    assert_eq!(released.len(), 1);
    assert_eq!(buffer.next_expected(), 1);
}
