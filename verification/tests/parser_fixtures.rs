use gfile_rust::error::GfileError;
use gfile_rust::parser::download::{
    page_from_texts, parse_single_file_page, select_first_text, trimmed_selection, PageKind,
};
use gfile_rust::parser::size::parse_display_size;

const FILE_ID: &str = "0123abcd-000000example";

const SINGLE_BASIC: &str = r#"<!DOCTYPE html>
<html lang="ja">
<head><meta charset="utf-8"><title>GigaFile</title></head>
<body>
  <div id="file_info">
    <p id="dl">
      example file.bin
    </p>
    <span class="dl_size">10KB</span>
  </div>
</body>
</html>
"#;

const SINGLE_JAPANESE: &str = r#"<!DOCTYPE html>
<html lang="ja">
<head><meta charset="utf-8"><title>GigaFile</title></head>
<body>
  <p id="dl">テスト資料_2026.zip</p>
  <span class="dl_size">1.5MB</span>
</body>
</html>
"#;

const SINGLE_BROKEN: &str = r#"<!DOCTYPE html>
<html>
<body>
  <p class="file_name">example file.bin</p>
  <span class="dl_size">10KB</span>
</body>
</html>
"#;

const MATOMETE: &str = r#"<!DOCTYPE html>
<html>
<body>
  <div id="contents_matomete">
    <div class="matomete_file">a.bin</div>
  </div>
  <p id="dl">a.bin</p>
  <span class="dl_size">1KB</span>
</body>
</html>
"#;

const NO_SIZE: &str = r#"<html><body><p id="dl">x.bin</p></body></html>"#;

#[test]
fn parse_single_basic_fixture_extracts_file_info() {
    let page = parse_single_file_page(SINGLE_BASIC, FILE_ID).unwrap();

    assert_eq!(page.files.len(), 1);
    let file = &page.files[0];
    assert_eq!(file.file_id, FILE_ID);
    assert_eq!(file.raw_name, "example file.bin");
    assert_eq!(file.display_size.as_deref(), Some("10KB"));
    assert_eq!(file.approx_bytes, Some(10 * 1024));
}

#[test]
fn parse_single_japanese_fixture_preserves_name_bytes() {
    let page = parse_single_file_page(SINGLE_JAPANESE, FILE_ID).unwrap();

    assert_eq!(
        page.files[0].raw_name.as_bytes(),
        "テスト資料_2026.zip".as_bytes()
    );
}

#[test]
fn parse_single_broken_fixture_reports_missing_dl() {
    let error = parse_single_file_page(SINGLE_BROKEN, FILE_ID).expect_err("broken fixture should fail");

    match error {
        GfileError::Parse { what, .. } => assert!(what.contains("#dl"), "{what}"),
        other => panic!("unexpected error: {other:?}"),
    }
}

#[test]
fn parse_page_kind_and_key_flag() {
    let page = parse_single_file_page(SINGLE_BASIC, FILE_ID).unwrap();
    assert_eq!(page.kind, PageKind::Single);
    assert!(!page.needs_key);
}

#[test]
fn parse_japanese_fixture_reads_fractional_size() {
    let page = parse_single_file_page(SINGLE_JAPANESE, FILE_ID).unwrap();
    assert_eq!(page.files[0].display_size.as_deref(), Some("1.5MB"));
    assert_eq!(page.files[0].approx_bytes, Some(1_572_864));
}

#[test]
fn parse_matomete_page_is_refused() {
    let error = parse_single_file_page(MATOMETE, FILE_ID).expect_err("matomete page should fail");
    match error {
        GfileError::Parse { what, hint } => {
            assert_eq!(what, "matomete pages are not implemented in M1");
            assert!(hint.contains("M2"));
        }
        other => panic!("unexpected error: {other:?}"),
    }
}

#[test]
fn parse_page_without_size_reports_missing_size() {
    let error = parse_single_file_page(NO_SIZE, FILE_ID).expect_err("page without size should fail");
    match error {
        GfileError::Parse { what, hint } => {
            assert_eq!(what, "missing .dl_size");
            assert!(hint.starts_with("Page structure may have changed"));
        }
        other => panic!("unexpected error: {other:?}"),
    }
}

#[test]
fn display_sizes_in_every_unit() {
    assert_eq!(parse_display_size("10KB"), Some(10240));
    assert_eq!(parse_display_size("512B"), Some(512));
    assert_eq!(parse_display_size("2 MB"), Some(2 * 1024 * 1024));
    assert_eq!(parse_display_size("1.25gb"), Some(1_342_177_280));
    assert_eq!(parse_display_size("3TB"), Some(3 * 1024u64.pow(4)));
    assert_eq!(parse_display_size("0.1KB"), Some(102));
}

#[test]
fn display_sizes_that_are_refused() {
    assert_eq!(parse_display_size(""), None);
    assert_eq!(parse_display_size("KB"), None);
    assert_eq!(parse_display_size("10"), None);
    assert_eq!(parse_display_size("10.KB"), None);
    assert_eq!(parse_display_size("10 PB"), None);
    assert_eq!(parse_display_size("1.5.2MB"), None);
    assert_eq!(parse_display_size("18446744073709551616B"), None);
    assert_eq!(parse_display_size("17179869184GB"), None);
}

#[test]
fn display_size_with_many_fraction_digits_rounds_down() {
    assert_eq!(
        parse_display_size("0.000000000000000000000000000000000001TB"),
        Some(0)
    );
    assert_eq!(parse_display_size("1.9999B"), Some(1));
}

#[test]
fn selection_text_is_trimmed() {
    assert_eq!(
        select_first_text(SINGLE_BASIC, "#dl").unwrap(),
        Some("example file.bin".to_string())
    );
    assert_eq!(select_first_text(SINGLE_BASIC, "#nothing").unwrap(), None);
    match select_first_text(SINGLE_BASIC, "[[") {
        Err(GfileError::Parse { what, hint }) => {
            assert_eq!(what, "invalid selector [[");
            assert!(hint.contains("internal parser bug"));
        }
        other => panic!("unexpected {other:?}"),
    }
    assert_eq!(
        trimmed_selection(Some(Some("\n  a b \t".to_string())), "#dl").unwrap(),
        Some("a b".to_string())
    );
    assert_eq!(trimmed_selection(Some(None), "#dl").unwrap(), None);
    assert!(trimmed_selection(None, "#dl").is_err());
}

#[test]
fn page_is_built_from_the_selected_texts() {
    let page = page_from_texts(Ok(None), Ok(Some("a.bin".into())), Ok(Some("2KB".into())), "fid")
        .unwrap();
    assert_eq!(page.files.len(), 1);
    assert_eq!(page.files[0].raw_name, "a.bin");
    assert_eq!(page.files[0].file_id, "fid");
    assert_eq!(page.files[0].approx_bytes, Some(2048));
    let missing = page_from_texts(Ok(None), Ok(None), Ok(Some("2KB".into())), "fid");
    assert!(matches!(missing, Err(GfileError::Parse { what, .. }) if what == "missing #dl"));
    let passed_on = page_from_texts(
        Err(GfileError::UploadRejected { detail: "x".into() }),
        Ok(None),
        Ok(None),
        "fid",
    );
    assert!(matches!(passed_on, Err(GfileError::UploadRejected { .. })));
}
