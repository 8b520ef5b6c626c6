use zeptoclaw::text::is_whitespace;
use zeptoclaw::url::extract_cloudflare_url;

#[test]
fn test_extract_cloudflare_url_positive() {
    let line = r#"2024-01-15T10:00:00Z INF +-------------------------------------------+"#;
    assert!(extract_cloudflare_url(line).is_none());

    let line = r#"2024-01-15T10:00:00Z INF |  https://random-slug.trycloudflare.com   |"#;
    let url = extract_cloudflare_url(line).unwrap();
    assert_eq!(url, "https://random-slug.trycloudflare.com");

    let line = "Your quick Tunnel has been created! Visit it at (server URL): https://abc-def-ghi.trycloudflare.com";
    let url = extract_cloudflare_url(line).unwrap();
    assert_eq!(url, "https://abc-def-ghi.trycloudflare.com");
}

#[test]
fn test_extract_cloudflare_url_cfargotunnel() {
    let line = "Tunnel URL: https://my-tunnel.cfargotunnel.com";
    let url = extract_cloudflare_url(line).unwrap();
    assert_eq!(url, "https://my-tunnel.cfargotunnel.com");
}

#[test]
fn test_extract_cloudflare_url_negative() {
    assert!(extract_cloudflare_url("starting tunnel...").is_none());
    assert!(extract_cloudflare_url("https://example.com").is_none());
    assert!(extract_cloudflare_url("http://trycloudflare.com").is_none());
    assert!(extract_cloudflare_url("").is_none());
}

fn extracted(line: &str) -> Option<String> {
    extract_cloudflare_url(line)
}

#[test]
fn quotation_marks_and_commas_are_taken_off() {
    for line in [
        "\"https://a.trycloudflare.com\"",
        "'https://a.trycloudflare.com',",
        "{ \"url\": \"https://a.trycloudflare.com\", \"n\": 1 }",
        ",,https://a.trycloudflare.com,'\"",
    ] {
        assert_eq!(extracted(line).as_deref(), Some("https://a.trycloudflare.com"));
    }
}

#[test]
fn embedded_url_ends_at_whitespace_or_quotation_mark() {
    assert_eq!(
        extracted("url=https://a.trycloudflare.com rest").as_deref(),
        Some("https://a.trycloudflare.com")
    );
    assert_eq!(
        extracted("{\"url\":\"https://a.cfargotunnel.com/x\"}").as_deref(),
        Some("https://a.cfargotunnel.com/x")
    );
    // A comma does not end an embedded link.
    assert_eq!(
        extracted("url=https://a.trycloudflare.com,next").as_deref(),
        Some("https://a.trycloudflare.com,next")
    );
    // Only the first scheme of the line is tried.
    assert_eq!(
        extracted("a=https://example.com b=https://a.trycloudflare.com"),
        None
    );
}

#[test]
fn first_word_that_is_a_url_wins() {
    assert_eq!(
        extracted("https://example.com https://b.trycloudflare.com https://c.trycloudflare.com")
            .as_deref(),
        Some("https://b.trycloudflare.com")
    );
    assert_eq!(
        extracted("x=https://a.trycloudflare.com https://b.trycloudflare.com").as_deref(),
        Some("https://b.trycloudflare.com")
    );
}

#[test]
fn positions_are_characters() {
    assert_eq!(
        extracted("\u{fc}\u{3000}\u{1f980} https://\u{e4}.trycloudflare.com\u{a0}\u{1f980}")
            .as_deref(),
        Some("https://\u{e4}.trycloudflare.com")
    );
    assert_eq!(
        extracted("\u{1f980}=https://\u{e4}.trycloudflare.com'").as_deref(),
        Some("https://\u{e4}.trycloudflare.com")
    );
}

#[test]
fn scheme_and_host_are_both_needed() {
    assert_eq!(extracted(".trycloudflare.com"), None);
    assert_eq!(extracted("HTTPS://a.trycloudflare.com"), None);
    assert_eq!(extracted("https://trycloudflare.com"), None);
    assert_eq!(extracted("https://"), None);
    assert_eq!(extracted(" \" ' , "), None);
}

#[test]
fn whitespace_is_that_of_unicode() {
    for n in 0..=0x10ffffu32 {
        if let Some(c) = char::from_u32(n) {
            assert_eq!(is_whitespace(c), c.is_whitespace(), "{:x}", n);
        }
    }
}
