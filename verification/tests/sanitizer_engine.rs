use web_sanitizer::sanitizer_engine::resource_sanitizer::{
    generate_local_filename, sanitize_css, sanitize_javascript, sniff_mime, strip_jpeg_metadata,
    strip_png_metadata, validate_mime,
};
use web_sanitizer::url::Url;

#[test]
fn test_sniff_mime() {
    assert_eq!(
        sniff_mime(&[0x89, 0x50, 0x4E, 0x47, 0x0D, 0x0A, 0x1A, 0x0A]),
        Some("image/png")
    );
    assert_eq!(sniff_mime(&[0xFF, 0xD8, 0xFF, 0xE0]), Some("image/jpeg"));
    assert_eq!(sniff_mime(b"GIF89a..."), Some("image/gif"));
    assert_eq!(sniff_mime(b"%PDF-1.4"), Some("application/pdf"));
    assert_eq!(sniff_mime(b"body {}"), None);
}

#[test]
fn test_validate_mime() {
    assert!(
        validate_mime(
            Some("image/png"),
            sniff_mime(&[0x89, 0x50, 0x4E, 0x47, 0x0D, 0x0A, 0x1A, 0x0A])
        )
        .is_ok()
    );
    assert!(validate_mime(Some("image/jpeg"), sniff_mime(&[0xFF, 0xD8, 00, 00])).is_ok());
    assert!(validate_mime(Some("image/png"), sniff_mime(&[0xFF, 0xD8])).is_err());
}

#[test]
fn resource_sanitizer_test_strip_jpeg_metadata() {
    let jpeg = vec![
        0xFF, 0xD8, 0xFF, 0xE1, 0x00, 0x06, 0x00, 0x00, 0x00, 0x00, 0xFF, 0xD9,
    ];
    let stripped = strip_jpeg_metadata(&jpeg);
    assert_eq!(stripped, vec![0xFF, 0xD8, 0xFF, 0xD9]);
}

#[test]
fn resource_sanitizer_test_strip_png_metadata() {
    let mut png = vec![0x89, 0x50, 0x4E, 0x47, 0x0D, 0x0A, 0x1A, 0x0A];
    // add tEXt chunk
    png.extend_from_slice(&[0x00, 0x00, 0x00, 0x04]); // length
    png.extend_from_slice(b"tEXt"); // type
    png.extend_from_slice(b"data"); // data
    png.extend_from_slice(&[0x00, 0x00, 0x00, 0x00]); // CRC

    let stripped = strip_png_metadata(&png);
    assert_eq!(
        stripped,
        vec![0x89, 0x50, 0x4E, 0x47, 0x0D, 0x0A, 0x1A, 0x0A]
    );
}

#[test]
fn test_sanitize_javascript() {
    assert!(sanitize_javascript("console.log('hello');").is_ok());
    assert!(sanitize_javascript("eval('1 + 1');").is_err());
    assert!(sanitize_javascript("document.write('xss');").is_err());
}

#[test]
fn test_sanitize_css() {
    let base_url = Url::parse("https://example.com/dir/style.css").unwrap();
    let css = "body { background: url('img.png'); } @import 'common.css';";
    let (rewritten, extracted) = sanitize_css(css, &base_url);

    assert!(rewritten.contains("url(\"sub_"));
    assert!(rewritten.contains("@import \"sub_"));
    assert_eq!(extracted.len(), 2);
    assert_eq!(
        extracted[0].0.as_str(),
        url::Url::parse("https://example.com/dir/img.png").unwrap().as_str()
    );
    assert_eq!(
        extracted[1].0.as_str(),
        url::Url::parse("https://example.com/dir/common.css").unwrap().as_str()
    );
}

#[test]
fn resource_sanitizer_test_generate_local_filename() {
    let url1 = Url::parse("https://example.com/asset.js?v=2").unwrap();
    let name1 = generate_local_filename(&url1, "bin");
    assert!(name1.starts_with("sub_"));
    assert!(name1.ends_with(".js"));

    let url2 = Url::parse("https://example.com/no-ext").unwrap();
    let name2 = generate_local_filename(&url2, "png");
    assert!(name2.ends_with(".png"));
}

#[test]
fn test_sanitize_javascript_spaces() {
    assert!(sanitize_javascript("eval    (  '1+1'  )").is_err());
    assert!(sanitize_javascript("let evaluator = 1;").is_ok());
    assert!(sanitize_javascript("document.write()").is_err());
}

#[test]
fn test_sanitize_css_dangerous_uris() {
    let base_url = Url::parse("https://example.com/style.css").unwrap();
    let css = "body { background: url('data:image/png;base64,1234'); font: url('javascript:alert(1)'); }";
    let (rewritten, extracted) = sanitize_css(css, &base_url);
    assert!(rewritten.contains("url(\"\")"));
    assert_eq!(extracted.len(), 0);
}
