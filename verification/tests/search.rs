use find_cmdlet::search::{make_result, sanitize_query, SearchError};

#[test]
fn sanitize_drops_ascii_punctuation_and_lowercases() {
    assert_eq!(sanitize_query("Get-Widget!"), "getwidget");
    assert_eq!(sanitize_query("a b\tc"), "abc");
    assert_eq!(sanitize_query("!!! :::"), "");
    assert_eq!(sanitize_query(""), "");
    assert_eq!(sanitize_query("A1b2"), "a1b2");
}

#[test]
fn sanitize_passes_non_ascii_through() {
    assert_eq!(sanitize_query("café!"), "café");
    assert_eq!(sanitize_query("Grüße-2"), "grüße2");
}

fn some(s: &str) -> Option<String> {
    Some(String::from(s))
}

#[test]
fn make_result_assembles_and_trims() {
    let r = make_result(
        some("  DemoModule "),
        some("1.0"),
        some(" Get-Widget\n"),
        some(" https://example.test "),
        some(" alpha  beta "),
        some("  synopsis  "),
        some("syntax"),
        42,
    )
    .unwrap();
    assert_eq!(r.module_name, "DemoModule");
    assert_eq!(r.module_version, "1.0");
    assert_eq!(r.name, "Get-Widget");
    // The url is trimmed like every other text field.
    assert_eq!(r.url, "https://example.test");
    assert_eq!(r.tags, vec![String::from("alpha"), String::from("beta")]);
    assert_eq!(r.synopsis, "synopsis");
    assert_eq!(r.syntax, "syntax");
    assert_eq!(r.score_bits, 42);
}

#[test]
fn make_result_rejects_missing_stored_field() {
    let err = make_result(
        some("DemoModule"),
        some("1.0"),
        None,
        some("url"),
        some(""),
        some(""),
        some(""),
        0,
    )
    .unwrap_err();
    assert!(matches!(err, SearchError::MissingValue));
    assert_eq!(err.message(), "none error");
}
