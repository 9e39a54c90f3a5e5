use web_sanitizer::log::{LogLevel, NullLogger};
use web_sanitizer::resources::mime::{sniff, validate, KnownMime};
use web_sanitizer::resources::{
    css, generate_local_filename, javascript, scan_pdf_for_active_content, strip_jpeg_metadata,
    strip_png_metadata, EntityScanner,
};
use web_sanitizer::rules::RuleWithReplace;
use web_sanitizer::url::Url;

#[test]
fn test_entity_scanner() {
    let mut scanner = EntityScanner::new();
    assert!(!scanner.feed_chunk(b"<html><body>"));
    assert!(!scanner.feed_chunk(b"<!DOCTYPE html>"));
    assert!(scanner.feed_chunk(b"<!ENTITY x 'y'>"));

    // Case insensitivity
    let mut scanner = EntityScanner::new();
    assert!(scanner.feed_chunk(b"<!entity lol 'lol'>"));

    // Boundary split
    let mut scanner = EntityScanner::new();
    assert!(!scanner.feed_chunk(b"abc<!ENT"));
    assert!(scanner.feed_chunk(b"ITY def"));

    // Overlapping match
    let mut scanner = EntityScanner::new();
    assert!(!scanner.feed_chunk(b"<!<!ENT"));
    assert!(scanner.feed_chunk(b"ITY"));

    // Another overlap match
    let mut scanner = EntityScanner::new();
    assert!(!scanner.feed_chunk(b"<!EN<!ENT"));
    assert!(scanner.feed_chunk(b"ITY"));
}

#[test]
fn mod_test_strip_jpeg_metadata() {
    let jpeg = vec![
        0xFF, 0xD8, 0xFF, 0xE1, 0x00, 0x06, 0x00, 0x00, 0x00, 0x00, 0xFF, 0xD9,
    ];
    let stripped = strip_jpeg_metadata(&jpeg);
    assert_eq!(stripped, vec![0xFF, 0xD8, 0xFF, 0xD9]);
}

#[test]
fn mod_test_strip_png_metadata() {
    let mut png = vec![0x89, 0x50, 0x4E, 0x47, 0x0D, 0x0A, 0x1A, 0x0A];
    // add tEXt chunk
    png.extend_from_slice(&[0x00, 0x00, 0x00, 0x04]); // length
    png.extend_from_slice(b"tEXt"); // type
    png.extend_from_slice(b"data"); // data
    png.extend_from_slice(&[0x00, 0x00, 0x00, 0x00]); // CRC

    let stripped = strip_png_metadata(&png);
    assert_eq!(
        stripped,
        vec![0x89, 0x50, 0x4E, 0x47, 0x0D, 0x0A, 0x1A, 0x0A]
    );
}

#[test]
fn mod_test_generate_local_filename() {
    let url1 = Url::parse("https://example.com/asset.js?v=2").unwrap();
    let name1 = generate_local_filename(&url1, "bin");
    assert!(name1.starts_with("sub_"));
    assert!(name1.ends_with(".js"));

    let url2 = Url::parse("https://example.com/no-ext").unwrap();
    let name2 = generate_local_filename(&url2, "png");
    assert!(name2.ends_with(".png"));

    // Path traversal mitigation check
    let url3 = Url::parse("https://example.com/../../../etc/passwd").unwrap();
    let name3 = generate_local_filename(&url3, "txt");
    assert!(!name3.contains(".."));
    assert!(!name3.contains('/'));
    assert!(!name3.contains('\\'));
}

#[test]
fn test_scan_pdf_for_active_content() {
    // Clean PDF
    let clean_pdf = b"%PDF-1.4\n1 0 obj\n<< /Type /Catalog /Pages 2 0 R >>\nendobj\n";
    assert!(scan_pdf_for_active_content(clean_pdf).is_ok());

    // Malicious PDF with /JS key
    let malicious_js = b"%PDF-1.4\n1 0 obj\n<< /Type /Action /JS (app.alert(1)) >>\nendobj\n";
    assert!(scan_pdf_for_active_content(malicious_js).is_err());

    // Malicious PDF with /OpenAction key
    let malicious_open = b"%PDF-1.4\n1 0 obj\n<< /OpenAction 2 0 R >>\nendobj\n";
    assert!(scan_pdf_for_active_content(malicious_open).is_err());

    // PDF containing /JS inside a binary stream block (should pass)
    let stream_pdf =
        b"%PDF-1.4\n1 0 obj\n<< /Length 20 >>\nstream\nrandom/JSdata\nendstream\nendobj\n";
    assert!(scan_pdf_for_active_content(stream_pdf).is_ok());

    // Boundary checks and fake stream check
    let fake_stream = b"randomstream/JS";
    assert!(scan_pdf_for_active_content(fake_stream).is_err());
}

#[test]
fn css_test_sanitize() {
    let base_url = Url::parse("https://example.com/dir/style.css").unwrap();
    let css = "body { background: url('img.png'); } @import 'common.css';";
    let (rewritten, extracted) = css::sanitize(
        css,
        &base_url,
        &NullLogger,
        &RuleWithReplace::<String>::with_default(LogLevel::Warn),
    )
    .unwrap();

    assert!(rewritten.contains("url(\"sub_"));
    assert!(rewritten.contains("@import \"sub_"));
    assert_eq!(extracted.len(), 2);
    assert_eq!(
        extracted[0].0.as_str(),
        url::Url::parse("https://example.com/dir/img.png").unwrap().as_str()
    );
    assert_eq!(
        extracted[1].0.as_str(),
        url::Url::parse("https://example.com/dir/common.css").unwrap().as_str()
    );
}

#[test]
fn test_sanitize_dangerous_uris() {
    let base_url = Url::parse("https://example.com/style.css").unwrap();
    let css = "body { background: url('data:image/png;base64,1234'); font: url('javascript:alert(1)'); }";
    let (rewritten, extracted) = css::sanitize(
        css,
        &base_url,
        &NullLogger,
        &RuleWithReplace::<String>::with_default(LogLevel::Warn),
    )
    .unwrap();
    assert!(rewritten.contains("url(\"\")"));
    assert_eq!(extracted.len(), 0);
}

#[test]
fn javascript_test_sanitize() {
    assert!(javascript::sanitize("console.log('hello');").is_ok());
    assert!(javascript::sanitize("eval('1 + 1');").is_err());
    assert!(javascript::sanitize("document.write('xss');").is_err());
}

#[test]
fn test_sanitize_spaces() {
    assert!(javascript::sanitize("eval    (  '1+1'  )").is_err());
    assert!(javascript::sanitize("let evaluator = 1;").is_ok());
    assert!(javascript::sanitize("document.write()").is_err());
}

#[test]
fn test_sniff() {
    assert_eq!(
        sniff(&[0x89, 0x50, 0x4E, 0x47, 0x0D, 0x0A, 0x1A, 0x0A]),
        Some(KnownMime::Png)
    );
    assert_eq!(sniff(&[0xFF, 0xD8, 0xFF, 0xE0]), Some(KnownMime::Jpeg));
    assert_eq!(sniff(b"GIF89a..."), Some(KnownMime::Gif));
    assert_eq!(sniff(b"%PDF-1.4"), Some(KnownMime::Pdf));
    assert_eq!(sniff(b"body {}"), None);
}

#[test]
fn test_validate() {
    assert!(validate(
        Some("image/png"),
        sniff(&[0x89, 0x50, 0x4E, 0x47, 0x0D, 0x0A, 0x1A, 0x0A])
    ));
    assert!(validate(Some("image/jpeg"), sniff(&[0xFF, 0xD8, 00, 00])));
    assert!(!validate(Some("image/png"), sniff(&[0xFF, 0xD8])));
}

#[test]
fn png_short_tail_is_kept() {
    let data = vec![0x89, 0x50, 0x4E, 0x47, 0x0D, 0x0A, 0x1A, 0x0A, 0x00, 0x00, 0x00, 0x00];
    assert_eq!(strip_png_metadata(&data), data);
}

#[test]
fn jpeg_strip_is_stable() {
    let jpeg = vec![
        0xFF, 0xD8, 0xFF, 0xE1, 0x00, 0x04, 0xAA, 0xBB, 0xFF, 0xC0, 0x00, 0x03, 0x01, 0x02, 0xFF,
        0xD9,
    ];
    let once = strip_jpeg_metadata(&jpeg);
    assert_eq!(once, vec![0xFF, 0xD8, 0xFF, 0xC0, 0x00, 0x03, 0x01, 0x02, 0xFF, 0xD9]);
    assert_eq!(strip_jpeg_metadata(&once), once);
}

#[test]
fn sniff_keeps_type_when_bytes_follow() {
    assert_eq!(sniff(b"%PDF"), Some(KnownMime::Pdf));
    assert_eq!(sniff(b"%PDF-1.7 trailing"), Some(KnownMime::Pdf));
    assert_eq!(sniff(&[0xFF, 0xD8]), Some(KnownMime::Jpeg));
    assert_eq!(sniff(&[0xFF, 0xD8, 0x89, 0x50]), Some(KnownMime::Jpeg));
}

#[test]
fn css_quoted_reference_consumes_its_parenthesis() {
    let base = Url::parse("https://example.com/").unwrap();
    let rule: RuleWithReplace<String> = RuleWithReplace::with_default(LogLevel::Warn);
    let (out, ext) = css::sanitize("a{b:url('data:x')}", &base, &NullLogger, &rule).unwrap();
    assert_eq!(out, "a{b:url(\"\")}");
    assert!(ext.is_empty());

    let (out, ext) = css::sanitize("a{b:url( \"img.png\" ) }", &base, &NullLogger, &rule).unwrap();
    assert!(out.starts_with("a{b:url(\"sub_"));
    assert!(out.ends_with(".png\")}"));
    assert!(!out.contains("))"));
    assert_eq!(ext.len(), 1);

    let (out, _) = css::sanitize("@import 'common.css'; p{}", &base, &NullLogger, &rule).unwrap();
    assert!(out.starts_with("@import \"sub_"));
    assert!(out.ends_with(".css\";p{}"));
    assert!(!out.contains(";;"));
}

#[test]
fn mime_clean_is_stable() {
    for s in ["Text/HTML ; charset=utf-8", "  image/JPG", "application/json", "", " ; x"] {
        let once = web_sanitizer::resources::mime::clean(s);
        assert_eq!(web_sanitizer::resources::mime::clean(&once), once);
    }
    assert_eq!(web_sanitizer::resources::mime::clean("  image/JPG"), "image/jpeg");
    assert_eq!(web_sanitizer::resources::mime::clean("Text/HTML ; charset=utf-8"), "text/html");
}
