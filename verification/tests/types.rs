use collab_mode::types::{
    empty_json_map, id_hash, id_name, make_id, normalize_signaling_addr, replace_whitespace_char,
    truncate_for_log, Edit, EditorFileDesc, EditorOp, EditorOpKind, FileDesc, NewSnapshot, Project,
    RESERVED_BUFFERS_PROJECT, RESERVED_FILES_PROJECT,
};

#[test]
fn addresses_get_a_scheme() {
    assert_eq!(normalize_signaling_addr("example.com"), "wss://example.com");
    assert_eq!(normalize_signaling_addr("ws://127.0.0.1:80"), "ws://127.0.0.1:80");
    assert_eq!(normalize_signaling_addr("https://a.b/c"), "https://a.b/c");
    assert_eq!(normalize_signaling_addr("://x"), "wss://://x");
    assert_eq!(normalize_signaling_addr(""), "wss://");
    let once = normalize_signaling_addr("host:1");
    assert_eq!(normalize_signaling_addr(&once), once);
}

#[test]
fn long_texts_are_cut_for_logs() {
    assert_eq!(truncate_for_log("a\nb\tc", 30), "a\\nb\\tc");
    assert_eq!(truncate_for_log("", 0), "");
    let long = "0123456789abcdefghijABCDEFGHIJ";
    assert_eq!(truncate_for_log(long, 30), long);
    assert_eq!(truncate_for_log(long, 29), "0123456789...ABCDEFGHIJ (30 chars)");
    assert_eq!(truncate_for_log("hello", 3), "hello...hello (5 chars)");
    assert_eq!(truncate_for_log("0123456789", 9), "0123456789...0123456789 (10 chars)");
    assert_eq!(truncate_for_log("x", 0), "x...x (1 chars)");
    assert_eq!(replace_whitespace_char("x\r\n".to_string()), "x\\r\\n");
}

#[test]
fn ids_are_taken_apart() {
    assert_eq!(id_hash("alice::AB:CD"), "AB:CD");
    assert_eq!(id_name("alice::AB:CD"), Some("alice"));
    assert_eq!(id_hash("AB:CD"), "AB:CD");
    assert_eq!(id_name("AB:CD"), None);
    assert_eq!(id_hash("a::b::c"), "b::c");
    assert_eq!(id_name("a::b::c"), Some("a"));
    assert_eq!(id_name("::h"), Some(""));
    assert_eq!(id_hash("caf\u{e9}::h"), "h");
}

#[test]
fn ids_are_composed() {
    assert_eq!(make_id(Some("alice"), "AB:CD"), "alice::AB:CD");
    assert_eq!(make_id(Some(""), "AB:CD"), "AB:CD");
    assert_eq!(make_id(None, "AB:CD"), "AB:CD");
    let id = make_id(Some("bob"), "01:02");
    assert_eq!(make_id(id_name(&id), id_hash(&id)), id);
}

#[test]
fn a_trailing_colon_moves_into_the_hash() {
    let id = make_id(Some("a:"), "h");
    assert_eq!(id_name(&id), Some("a"));
    assert_eq!(id_hash(&id), ":h");
}

#[test]
fn editor_ops_have_kind_and_text() {
    let ins = EditorOp::Ins { pos: 3, content: "hi\n".to_string() };
    assert_eq!(ins.kind(), EditorOpKind::Original);
    assert_eq!(ins.to_text(), "ins(3, hi\\n)");
    let del = EditorOp::Del { pos: 0, content: "x".repeat(31) };
    assert_eq!(del.kind(), EditorOpKind::Original);
    assert_eq!(del.to_text(), "del(0, xxxxxxxxxx...xxxxxxxxxx (31 chars))");
    assert_eq!(EditorOp::Undo { context: 12 }.kind(), EditorOpKind::Undo);
    assert_eq!(EditorOp::Undo { context: 12 }.to_text(), "undo(12)");
    assert_eq!(EditorOp::Redo { context: 0 }.kind(), EditorOpKind::Redo);
    assert_eq!(EditorOp::Redo { context: 0 }.to_text(), "redo(0)");
    assert_eq!(Edit { pos: 7, content: "q".to_string() }.to_text(), "edit(7, q)");
}

#[test]
fn file_descriptors() {
    let file = FileDesc::ProjectFile { project: "p".to_string(), file: "a/b.rs".to_string() };
    assert_eq!(file.to_text(), "/p/a/b.rs");
    let project = FileDesc::Project { id: "p".to_string() };
    assert_eq!(project.to_text(), "p");

    let e = EditorFileDesc::new(file.clone(), "host".to_string());
    assert!(e.is_file() && !e.is_project());
    assert_eq!(e.host_id(), "host");
    assert_eq!(e.to_text(), "host/p/a/b.rs");
    assert_eq!(FileDesc::from(e), file);

    let e = EditorFileDesc::new(project.clone(), "host".to_string());
    assert!(e.is_project() && !e.is_file());
    assert_eq!(e.to_text(), "host/p");
    assert_eq!(FileDesc::from(e), project);
}

#[test]
fn slashes_around_a_path_are_dropped() {
    let e = EditorFileDesc {
        host_id: "h".to_string(),
        project: "p".to_string(),
        file: "//x/y/".to_string(),
    };
    assert_eq!(
        FileDesc::from(e),
        FileDesc::ProjectFile { project: "p".to_string(), file: "x/y".to_string() }
    );
}

#[test]
fn snapshots_show_short_content() {
    let mut s = NewSnapshot {
        content: "a".repeat(50),
        internal_doc: (),
        name: "n".to_string(),
        seq: 1,
        site_id: 2,
        file_desc: FileDesc::Project { id: "p".to_string() },
        doc_id: 3,
    };
    assert_eq!(s.content_summary(), "a".repeat(50));
    s.content = format!("{}{}{}", "h".repeat(20), "m".repeat(11), "t".repeat(20));
    assert_eq!(
        s.content_summary(),
        format!("'{}'\u{2026}'{}' (51 chars)", "h".repeat(20), "t".repeat(20))
    );
}

#[test]
fn projects_start_without_metadata() {
    let p = Project { name: "n".to_string(), root: "/r".to_string(), meta: empty_json_map() };
    assert!(p.meta.is_empty());
    assert_eq!(RESERVED_BUFFERS_PROJECT, "_buffers");
    assert_eq!(RESERVED_FILES_PROJECT, "_files");
}
