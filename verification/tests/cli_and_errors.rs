use gfile_rust::cli::{exit_code, log_filter, pending_notice, run, Cli, Commands};
use gfile_rust::download::{boxed, html_response_error, io_error, network_error, timeout_network_error};
use gfile_rust::error::{BoxError, GfileError, IoErrorKind, IoFailure, IoOp};
use gfile_rust::http::{is_retryable, is_success_status, retry_delay_ms, status_error};
use gfile_rust::parser::download::{parse_error, parse_hint};

#[test]
fn exit_codes_follow_the_documented_table() {
    let cases: Vec<(GfileError, u8)> = vec![
        (GfileError::InvalidUrl { url: "u".into(), reason: "r".into() }, 10),
        (network_error(boxed(None, "x".into()), "c"), 11),
        (status_error(503, "u"), 12),
        (parse_error("w", "h"), 13),
        (GfileError::SizeMismatch { expected: 1, actual: 0 }, 17),
        (
            io_error(IoFailure { kind: IoErrorKind::Other, message: "m".into() }, "/p", IoOp::Write),
            18,
        ),
        (GfileError::UploadRejected { detail: "d".into() }, 19),
    ];
    for (error, code) in cases {
        assert_eq!(error.exit_code(), code, "{error:?}");
    }
}

#[test]
fn commands_are_not_offered_yet() {
    let cli = Cli { verbose: 0, command: Commands::Download { url: "https://46.gigafile.nu/x".into() } };
    assert_eq!(pending_notice(&cli.command), "download is not implemented yet");
    match run(cli) {
        Err(GfileError::Parse { what, hint }) => {
            assert_eq!(what, "download command is not implemented yet");
            assert!(hint.contains("M0"));
        }
        other => panic!("unexpected {other:?}"),
    }
    let cli = Cli { verbose: 2, command: Commands::Upload { file: "file.bin".into() } };
    assert_eq!(pending_notice(&cli.command), "upload is not implemented yet");
    let err = run(cli).unwrap_err();
    assert_eq!(err.exit_code(), 19);
}

#[test]
fn verbosity_selects_the_log_level() {
    assert_eq!(log_filter(0), "gfile_rust=warn,gfile=warn");
    assert_eq!(log_filter(1), "gfile_rust=info,gfile=info");
    assert_eq!(log_filter(2), "gfile_rust=debug,gfile=debug");
    assert_eq!(log_filter(255), "gfile_rust=debug,gfile=debug");
}

#[test]
fn exit_statuses_fit_in_a_byte() {
    assert_eq!(exit_code(0), 0);
    assert_eq!(exit_code(130), 130);
    assert_eq!(exit_code(255), 255);
    assert_eq!(exit_code(256), 1);
    assert_eq!(exit_code(-1), 1);
}

#[test]
fn error_constructors() {
    match timeout_network_error("reading download chunk") {
        GfileError::Network { source, context } => {
            assert_eq!(source.message, "stream timed out");
            assert_eq!(source.io_kind, Some(IoErrorKind::TimedOut));
            assert_eq!(context, "reading download chunk");
        }
        other => panic!("unexpected {other:?}"),
    }
    match html_response_error("w") {
        GfileError::Parse { what, hint } => {
            assert_eq!(what, "w");
            assert!(hint.starts_with("The server returned an HTML page"));
        }
        other => panic!("unexpected {other:?}"),
    }
    let b: BoxError = boxed(None, "cause".into());
    assert_eq!(b.message, "cause");
    assert_eq!(b.io_kind, None);
    assert!(parse_hint().contains("--dump-page"));
}

#[test]
fn retry_policy() {
    assert!(is_success_status(200));
    assert!(is_success_status(299));
    assert!(!is_success_status(199));
    assert!(!is_success_status(300));
    assert!(is_retryable(&status_error(503, "u")));
    assert!(is_retryable(&status_error(429, "u")));
    assert!(is_retryable(&status_error(408, "u")));
    assert!(!is_retryable(&status_error(404, "u")));
    assert!(is_retryable(&timeout_network_error("c")));
    assert!(!is_retryable(&parse_error("w", "h")));
    assert_eq!(
        (0..6).map(retry_delay_ms).collect::<Vec<_>>(),
        vec![500, 1000, 2000, 4000, 8000, 8000]
    );
}
