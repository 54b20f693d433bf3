use gfile_rust::download::{
    ensure_target_free, first_remote_file, part_paths, part_sidecar, resolve_output_path,
    size_outside_tolerance, ReadFailure, RetryBudget, Transfer, TransferPhase,
};
use gfile_rust::error::{GfileError, IoErrorKind, IoOp};
use gfile_rust::parser::download::{PageInfo, PageKind, RemoteFile};
use gfile_rust::sniff::{is_html_content_type, looks_like_html};

const URL: &str = "http://127.0.0.1:8080/download.php?file=0123abcd-000000example";

fn binary_body(size: usize) -> Vec<u8> {
    (0..size).map(|index| (index % 251) as u8).collect()
}

fn remote(name: &str) -> RemoteFile {
    RemoteFile {
        file_id: "0123abcd-000000example".to_string(),
        raw_name: name.to_string(),
        display_size: Some("10KB".to_string()),
        approx_bytes: Some(10240),
    }
}

#[test]
fn transfer_of_whole_body_completes_with_its_length() {
    let body = binary_body(10 * 1024);
    let mut t = Transfer::new(URL);
    t.on_response(200, Some("application/octet-stream"), Some(body.len() as u64)).unwrap();
    t.on_first_chunk(Some(&body[..4096])).unwrap();
    t.on_chunk(4096);
    t.on_chunk(body.len() - 8192);
    assert_eq!(t.on_end().unwrap(), body.len() as u64);
    assert_eq!(t.phase(), TransferPhase::Complete);
}

#[test]
fn transfer_short_body_is_a_size_mismatch() {
    let body = binary_body(10 * 1024);
    let mut t = Transfer::new(URL);
    t.on_response(200, None, Some(12 * 1024)).unwrap();
    t.on_first_chunk(Some(&body)).unwrap();
    match t.on_end() {
        Err(GfileError::SizeMismatch { expected, actual }) => {
            assert_eq!(expected, 12 * 1024);
            assert_eq!(actual, 10 * 1024);
        }
        other => panic!("unexpected {other:?}"),
    }
    assert_eq!(t.phase(), TransferPhase::Failed);
}

#[test]
fn transfer_decode_failure_with_length_is_a_size_mismatch() {
    let mut t = Transfer::new(URL);
    t.on_response(200, None, Some(12 * 1024)).unwrap();
    t.on_first_chunk(Some(&binary_body(10 * 1024))).unwrap();
    let e = t.on_chunk_failure(ReadFailure::Transfer { decode: true, message: "eof".to_string() });
    assert!(matches!(e, GfileError::SizeMismatch { expected: 12288, actual: 10240 }));
}

#[test]
fn transfer_failures_while_streaming_are_network_errors() {
    let mut t = Transfer::new(URL);
    t.on_response(200, None, None).unwrap();
    t.on_first_chunk(Some(&binary_body(100))).unwrap();
    let e = t.on_chunk_failure(ReadFailure::Transfer { decode: true, message: "reset".to_string() });
    match e {
        GfileError::Network { source, context } => {
            assert_eq!(source.message, "reset");
            assert_eq!(context, "reading download chunk");
        }
        other => panic!("unexpected {other:?}"),
    }
    let mut t = Transfer::new(URL);
    t.on_response(200, None, None).unwrap();
    let e = t.on_first_chunk_failure(ReadFailure::Timeout);
    match e {
        GfileError::Network { source, context } => {
            assert_eq!(source.message, "stream timed out");
            assert_eq!(source.io_kind, Some(IoErrorKind::TimedOut));
            assert_eq!(context, "reading first download chunk");
        }
        other => panic!("unexpected {other:?}"),
    }
}

#[test]
fn transfer_html_content_type_is_refused() {
    let mut t = Transfer::new(URL);
    let e = t.on_response(200, Some("Text/HTML; charset=UTF-8"), Some(10)).unwrap_err();
    match e {
        GfileError::Parse { what, hint } => {
            assert_eq!(what, "download response content-type is HTML");
            assert!(hint.contains("HTML page instead of a file"));
        }
        other => panic!("unexpected {other:?}"),
    }
}

#[test]
fn transfer_html_body_is_refused_before_writing() {
    let mut t = Transfer::new(URL);
    t.on_response(200, None, None).unwrap();
    let e = t
        .on_first_chunk(Some(b"<!doctype html><html><body>not a file</body></html>"))
        .unwrap_err();
    assert!(matches!(e, GfileError::Parse { .. }));
    assert_eq!(t.actual(), 0);
    assert_eq!(t.phase(), TransferPhase::Failed);
}

#[test]
fn transfer_bad_status_is_an_http_error() {
    let mut t = Transfer::new(URL);
    match t.on_response(503, None, None) {
        Err(GfileError::HttpStatus { status, url }) => {
            assert_eq!(status, 503);
            assert_eq!(url, URL);
        }
        other => panic!("unexpected {other:?}"),
    }
}

#[test]
fn transfer_without_length_takes_what_arrives() {
    let mut t = Transfer::new(URL);
    t.on_response(200, None, None).unwrap();
    t.on_first_chunk(Some(&binary_body(2048))).unwrap();
    assert_eq!(t.on_end().unwrap(), 2048);
    let mut t = Transfer::new(URL);
    t.on_response(204, None, None).unwrap();
    t.on_first_chunk(None).unwrap();
    assert_eq!(t.on_end().unwrap(), 0);
}

#[test]
fn retries_follow_the_budget_and_back_off() {
    let busy = GfileError::HttpStatus { status: 503, url: URL.to_string() };
    let mut budget = RetryBudget::new(3);
    assert_eq!(budget.after_failure(&busy), Some(500));
    assert_eq!(budget.after_failure(&busy), Some(1000));
    assert_eq!(budget.after_failure(&busy), Some(2000));
    assert_eq!(budget.after_failure(&busy), None);
    assert_eq!(budget.attempt(), 3);
    let mut budget = RetryBudget::new(1);
    let missing = GfileError::HttpStatus { status: 404, url: URL.to_string() };
    assert_eq!(budget.after_failure(&missing), None);
    let mismatch = GfileError::SizeMismatch { expected: 2, actual: 1 };
    assert_eq!(budget.after_failure(&mismatch), None);
    let stall = GfileError::Network {
        source: gfile_rust::download::boxed(Some(IoErrorKind::TimedOut), "stream timed out".to_string()),
        context: "reading download chunk".to_string(),
    };
    assert_eq!(budget.after_failure(&stall), Some(500));
    assert_eq!(budget.after_failure(&stall), None);
}

#[test]
fn part_files_sit_beside_the_target() {
    let (part, sidecar) = part_paths("/tmp/out/example file.bin").unwrap();
    assert_eq!(part, "/tmp/out/example file.bin.part");
    assert_eq!(sidecar, "/tmp/out/example file.bin.part.json");
    let (part, sidecar) = part_paths("a.bin").unwrap();
    assert_eq!(part, "a.bin.part");
    assert_eq!(sidecar, "a.bin.part.json");
    let (part, _) = part_paths("dir/b.bin/").unwrap();
    assert_eq!(part, "dir/b.bin.part");
    let (part, sidecar) = part_paths("foo.txt/.").unwrap();
    assert_eq!(part, "foo.txt.part");
    assert_eq!(sidecar, "foo.txt.part.json");
    let (part, _) = part_paths("out/./x.bin").unwrap();
    assert_eq!(part, "out/x.bin.part");
    let (part, _) = part_paths("out//x.bin").unwrap();
    assert_eq!(part, "out/x.bin.part");
    let (part, _) = part_paths("/x.bin").unwrap();
    assert_eq!(part, "/x.bin.part");
}

#[test]
fn a_target_without_file_name_is_refused() {
    for path in ["", "/", "dir/..", ".", "..", "./."] {
        match part_paths(path) {
            Err(GfileError::Io { source, path: p, op }) => {
                assert_eq!(source.kind, IoErrorKind::InvalidInput);
                assert_eq!(p, path);
                assert_eq!(op, IoOp::Create);
            }
            other => panic!("{path}: unexpected {other:?}"),
        }
    }
}

#[test]
fn output_path_follows_the_options() {
    let file = remote("example file.bin");
    assert_eq!(resolve_output_path(&file, Some("/tmp/out"), true, "/cwd"), "/tmp/out/example file.bin");
    assert_eq!(resolve_output_path(&file, Some("/tmp/x.bin"), false, "/cwd"), "/tmp/x.bin");
    assert_eq!(resolve_output_path(&file, None, false, "/cwd"), "/cwd/example file.bin");
    let file = remote("テスト資料_2026.zip");
    assert_eq!(resolve_output_path(&file, None, false, "/cwd/"), "/cwd/テスト資料_2026.zip");
    let file = remote("a/../b");
    assert_eq!(resolve_output_path(&file, None, false, "/cwd"), "/cwd/a_.._b");
}

#[test]
fn existing_target_needs_force() {
    assert!(ensure_target_free("/tmp/a", false, false).is_ok());
    assert!(ensure_target_free("/tmp/a", true, true).is_ok());
    match ensure_target_free("/tmp/a", true, false) {
        Err(GfileError::Io { source, path, op }) => {
            assert_eq!(source.kind, IoErrorKind::AlreadyExists);
            assert_eq!(path, "/tmp/a");
            assert_eq!(op, IoOp::Create);
        }
        other => panic!("unexpected {other:?}"),
    }
}

#[test]
fn first_file_of_a_page() {
    let page = PageInfo { kind: PageKind::Single, files: vec![remote("a"), remote("b")], needs_key: false };
    assert_eq!(first_remote_file(&page).unwrap().raw_name, "a");
    let empty = PageInfo { kind: PageKind::Single, files: vec![], needs_key: false };
    match first_remote_file(&empty) {
        Err(GfileError::Parse { what, .. }) => assert_eq!(what, "page contains no downloadable file"),
        other => panic!("unexpected {other:?}"),
    }
}

#[test]
fn sidecar_records_the_announced_length() {
    let s = part_sidecar("fid", Some(12));
    assert_eq!(s.version, 1);
    assert_eq!(s.file_id, "fid");
    assert_eq!(s.expected, Some(12));
    assert!(!s.key_used);
}

#[test]
fn displayed_size_tolerance() {
    assert!(!size_outside_tolerance(10240, 10240));
    assert!(!size_outside_tolerance(10240, 11264));
    assert!(size_outside_tolerance(10240, 11265));
    assert!(!size_outside_tolerance(100, 1124));
    assert!(size_outside_tolerance(100, 1125));
    assert!(size_outside_tolerance(1_000_000, 899_999));
    assert!(!size_outside_tolerance(1_000_000, 900_000));
}

#[test]
fn html_sniffing() {
    assert!(looks_like_html(b"<!doctype html><html><body>not a file</body></html>"));
    assert!(looks_like_html(b"  \n<HTML>"));
    assert!(looks_like_html("\u{3000}<!DOCTYPE HTML>".as_bytes()));
    assert!(looks_like_html(b"garbage <body> here"));
    assert!(!looks_like_html(b"\x89PNG\r\n\x1a\n"));
    assert!(!looks_like_html(b""));
    let mut late = vec![b'x'; 600];
    late.extend_from_slice(b"<html>");
    assert!(!looks_like_html(&late));
    assert!(is_html_content_type(Some("text/html")));
    assert!(is_html_content_type(Some("TEXT/HTML; charset=utf-8")));
    assert!(!is_html_content_type(Some("application/octet-stream")));
    assert!(!is_html_content_type(None));
}

#[test]
fn part_paths_agree_with_std_path() {
    for target in [
        "a.bin", "dir/a.bin", "dir/a.bin/", "foo.txt/.", "a/./b/.", "./b", "/b", "//b", "dir//b",
        "a/../b", "x/./.", "./x/", "", "/", ".", "..", "./.", "a/..", "//", "a/.//..",
        "テスト/資料.zip",
    ] {
        let path = std::path::Path::new(target);
        let expected = path.file_name().map(|name| {
            let part_name = format!("{}.part", name.to_string_lossy());
            let sidecar_name = format!("{part_name}.json");
            let mut part = path.to_path_buf();
            part.set_file_name(&part_name);
            let mut sidecar = path.to_path_buf();
            sidecar.set_file_name(&sidecar_name);
            (part.to_string_lossy().into_owned(), sidecar.to_string_lossy().into_owned())
        });
        assert_eq!(part_paths(target).ok(), expected, "{target}");
    }
}
