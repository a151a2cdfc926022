use boson_spectra_telemetry::sanitize::{sanitize_error_message, MAX_ERROR_MESSAGE_CHARS};
use boson_spectra_telemetry::text::{normalize, str_eq};

#[test]
fn short_message_without_credentials_is_kept() {
    assert_eq!(sanitize_error_message("handler boom"), "handler boom");
    assert_eq!(sanitize_error_message(""), "");
    assert_eq!(sanitize_error_message("password is wrong"), "password is wrong");
}

#[test]
fn credential_value_is_redacted() {
    assert_eq!(
        sanitize_error_message("db failed password=hunter2"),
        "db failed password=[redacted]"
    );
    assert_eq!(
        sanitize_error_message("PassWord=x y Token=abc\tdone"),
        "PassWord=[redacted] y Token=[redacted]\tdone"
    );
    assert_eq!(sanitize_error_message("secret=a=b=c,d end"), "secret=[redacted] end");
    assert_eq!(sanitize_error_message("api_key="), "api_key=[redacted]");
    assert_eq!(
        sanitize_error_message("x apikey=1 passwd=2 authorization=3"),
        "x apikey=[redacted] passwd=[redacted] authorization=[redacted]"
    );
}

#[test]
fn redaction_is_stable_on_its_output() {
    for m in ["db failed password=hunter2", "token=a token=b", "plain text"] {
        let once = sanitize_error_message(m);
        assert_eq!(sanitize_error_message(&once), once);
    }
}

#[test]
fn oversize_message_is_clipped() {
    let long = "x".repeat(MAX_ERROR_MESSAGE_CHARS + 40);
    let out = sanitize_error_message(&long);
    assert_eq!(out.chars().count(), MAX_ERROR_MESSAGE_CHARS);
    assert_eq!(out, "x".repeat(MAX_ERROR_MESSAGE_CHARS));
    let wide = "é".repeat(MAX_ERROR_MESSAGE_CHARS);
    assert_eq!(sanitize_error_message(&wide), wide);
}

#[test]
fn normalize_trims_unicode_whitespace_and_lowercases_ascii() {
    assert_eq!(normalize(" \u{2003}MiXeD Case\n"), "mixed case");
    assert_eq!(normalize("ÄBC"), "Äbc");
    assert_eq!(normalize("   "), "");
    assert!(str_eq("abc", "abc"));
    assert!(!str_eq("abc", "abd"));
}
