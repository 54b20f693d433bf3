use gfile_rust::error::GfileError;
use gfile_rust::naming::sanitize_server_filename;
use gfile_rust::paths::{join, parent_and_file_name};
use gfile_rust::text::{chars_of, contains_lowered, trim_str};
use gfile_rust::urlinfo::parse_download_url;

#[test]
fn gigafile_url_is_split_into_origin_and_id() {
    let info = parse_download_url("https://46.gigafile.nu/0123abcd-000000example", false).unwrap();
    assert_eq!(info.page_url, "https://46.gigafile.nu/0123abcd-000000example");
    assert_eq!(info.origin, "https://46.gigafile.nu");
    assert_eq!(info.file_id, "0123abcd-000000example");
    assert_eq!(format!("{}/{}", info.origin, info.file_id), info.page_url);
    assert_eq!(
        info.download_url(),
        "https://46.gigafile.nu/download.php?file=0123abcd-000000example"
    );
}

#[test]
fn any_host_is_accepted_when_allowed() {
    let info = parse_download_url("http://127.0.0.1:8080/0123abcd-000000example", true).unwrap();
    assert_eq!(info.origin, "http://127.0.0.1:8080");
    assert_eq!(
        info.download_url(),
        "http://127.0.0.1:8080/download.php?file=0123abcd-000000example"
    );
}

#[test]
fn foreign_hosts_are_refused_by_default() {
    for url in [
        "http://127.0.0.1:8080/0123abcd",
        "http://46.gigafile.nu/0123abcd",
        "https://gigafile.nu/0123abcd",
        "https://x46.gigafile.nu/0123abcd",
        "https://46.gigafile.nu.example.com/0123abcd",
    ] {
        match parse_download_url(url, false) {
            Err(GfileError::InvalidUrl { url: u, .. }) => assert_eq!(u, url),
            other => panic!("{url}: unexpected {other:?}"),
        }
    }
}

#[test]
fn malformed_urls_are_refused() {
    for url in [
        "",
        "ftp://46.gigafile.nu/abc",
        "https://",
        "https:///abc",
        "https://46.gigafile.nu",
        "https://46.gigafile.nu/",
        "https://46.gigafile.nu/a/b",
        "https://46.gigafile.nu/abc?x=1",
        "https://46.gigafile.nu/abc#top",
    ] {
        assert!(
            matches!(parse_download_url(url, true), Err(GfileError::InvalidUrl { .. })),
            "{url}"
        );
    }
}

#[test]
fn server_names_are_made_safe() {
    assert_eq!(sanitize_server_filename("example file.bin", "id"), "example file.bin");
    assert_eq!(sanitize_server_filename("テスト資料_2026.zip", "id"), "テスト資料_2026.zip");
    assert_eq!(sanitize_server_filename("../etc/passwd", "id"), ".._etc_passwd");
    assert_eq!(sanitize_server_filename("a\\b\tc", "id"), "a_b_c");
    assert_eq!(sanitize_server_filename("", "0123abcd"), "0123abcd");
    assert_eq!(sanitize_server_filename("..", "0123abcd"), "0123abcd");
    assert_eq!(sanitize_server_filename(".", ".."), "download");
}

#[test]
fn sanitizing_twice_changes_nothing() {
    for raw in ["a/b", "..", "x\u{7f}y", "ok.txt", ""] {
        let once = sanitize_server_filename(raw, "fid");
        assert_eq!(sanitize_server_filename(&once, "fid"), once);
    }
}

#[test]
fn paths_split_and_join() {
    let split = |p: &str| parent_and_file_name(p);
    assert_eq!(split("/tmp/out/example.bin"), Some(("/tmp/out".to_string(), "example.bin".to_string())));
    assert_eq!(split("dir/sub//"), Some(("dir".to_string(), "sub".to_string())));
    assert_eq!(split("name"), Some((String::new(), "name".to_string())));
    assert_eq!(split("foo.txt/."), Some((String::new(), "foo.txt".to_string())));
    assert_eq!(split("a/./b/."), Some(("a".to_string(), "b".to_string())));
    assert_eq!(split("./b"), Some((".".to_string(), "b".to_string())));
    assert_eq!(split("/b"), Some(("/".to_string(), "b".to_string())));
    assert_eq!(split("a/../b"), Some(("a/..".to_string(), "b".to_string())));
    for no_name in ["", "/", ".", "..", "./.", "a/..", "//"] {
        assert_eq!(split(no_name), None, "{no_name}");
    }
    assert_eq!(join("/tmp/out", "a.bin"), "/tmp/out/a.bin");
    assert_eq!(join("/tmp/out/", "a.bin"), "/tmp/out/a.bin");
    assert_eq!(join("", "a.bin"), "a.bin");
}

#[test]
fn trimming_removes_unicode_white_space() {
    assert_eq!(trim_str("  \t example file.bin\n "), "example file.bin");
    assert_eq!(trim_str("\u{3000}名前\u{a0}"), "名前");
    assert_eq!(trim_str("   "), "");
    assert_eq!(trim_str("a b"), "a b");
}

#[test]
fn case_insensitive_search() {
    let hay = chars_of("Text/HTML; charset=utf-8");
    let pat = chars_of("text/html");
    assert!(contains_lowered(&hay, &pat));
    let pat = chars_of("text/plain");
    assert!(!contains_lowered(&hay, &pat));
}
