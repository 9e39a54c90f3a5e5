use web_sanitizer::crawl_session::{
    classify_resource, decide_enqueue, local_file_kind, remaining_bytes, sanitize_js_bytes,
    sanitize_resource, web_url, EnqueueDecision, VisitedUrls, LocalFileKind, ResourceKind, ResourceRules,
};
use web_sanitizer::errors::SanitizerError;
use web_sanitizer::log::{LogLevel, NullLogger};
use web_sanitizer::resources::mime::KnownMime;
use web_sanitizer::rules::{JsReplace, RuleWithReplace};
use web_sanitizer::url::Url;

fn rules(level: LogLevel) -> ResourceRules {
    ResourceRules {
        max_depth: 2,
        dangerous_css: RuleWithReplace::new(String::new(), level),
        dangerous_js: RuleWithReplace::with_default(level),
        pdf_active_content: level,
        unknown_resource: level,
    }
}

#[test]
fn crawl_remaining_bytes() {
    assert_eq!(remaining_bytes(100, 30), 70);
    assert_eq!(remaining_bytes(100, 100), 0);
    assert_eq!(remaining_bytes(100, 130), 0);
}

#[test]
fn crawl_classify_resource() {
    let url = |s: &str| Url::parse(s).unwrap();
    assert_eq!(classify_resource(Some(KnownMime::Jpeg), None, &url("https://a.b/x")), ResourceKind::Jpeg);
    assert_eq!(classify_resource(None, None, &url("https://a.b/photo.jpeg")), ResourceKind::Jpeg);
    assert_eq!(classify_resource(Some(KnownMime::Png), Some("text/css"), &url("https://a.b/x.css")), ResourceKind::Png);
    assert_eq!(classify_resource(None, Some("text/css"), &url("https://a.b/x")), ResourceKind::Css);
    assert_eq!(classify_resource(None, Some("application/javascript"), &url("https://a.b/x")), ResourceKind::Js);
    assert_eq!(classify_resource(None, None, &url("https://a.b/app.js?v=1")), ResourceKind::Js);
    assert_eq!(classify_resource(Some(KnownMime::Pdf), None, &url("https://a.b/x")), ResourceKind::Pdf);
    assert_eq!(classify_resource(Some(KnownMime::Gif), Some("text/css"), &url("https://a.b/x")), ResourceKind::Unknown);
    assert_eq!(classify_resource(None, None, &url("https://a.b/x.txt")), ResourceKind::Unknown);
}

#[test]
fn crawl_sanitize_resource_kinds() {
    let logger = NullLogger;
    let base = Url::parse("https://example.com/dir/style.css").unwrap();
    let lenient = rules(LogLevel::Warn);
    let strict = rules(LogLevel::Error);

    let png = vec![0x89, 0x50, 0x4E, 0x47, 0x0D, 0x0A, 0x1A, 0x0A];
    let (out, nested) = sanitize_resource(ResourceKind::Png, png.clone(), &base, 1, &lenient, &logger).unwrap();
    assert_eq!(out, png);
    assert!(nested.is_empty());

    let css = b"body { background: url('img.png'); }".to_vec();
    let (out, nested) = sanitize_resource(ResourceKind::Css, css.clone(), &base, 1, &lenient, &logger).unwrap();
    let text = String::from_utf8(out).unwrap();
    assert!(text.contains("url(\"sub_"));
    assert_eq!(nested.len(), 1);
    assert_eq!(nested[0].0.as_str(), "https://example.com/dir/img.png");
    let (_, deep) = sanitize_resource(ResourceKind::Css, css, &base, 2, &lenient, &logger).unwrap();
    assert!(deep.is_empty());

    let js = b"eval('1 + 1');".to_vec();
    let (out, _) = sanitize_resource(ResourceKind::Js, js.clone(), &base, 1, &lenient, &logger).unwrap();
    assert_eq!(out, b"/* Blocked by Web Sanitizer: dangerous keywords found */".to_vec());
    assert!(matches!(
        sanitize_resource(ResourceKind::Js, js, &base, 1, &strict, &logger),
        Err(SanitizerError::DangerousJsConstruct(_))
    ));
    let safe_js = b"console.log('hello');".to_vec();
    let (out, _) = sanitize_resource(ResourceKind::Js, safe_js.clone(), &base, 1, &strict, &logger).unwrap();
    assert_eq!(out, safe_js);

    let pdf = b"%PDF-1.4\n<< /OpenAction 2 0 R >>".to_vec();
    let (out, _) = sanitize_resource(ResourceKind::Pdf, pdf.clone(), &base, 1, &lenient, &logger).unwrap();
    assert_eq!(out, pdf);
    assert!(matches!(
        sanitize_resource(ResourceKind::Pdf, pdf, &base, 1, &strict, &logger),
        Err(SanitizerError::ActiveContent(_))
    ));

    assert!(matches!(
        sanitize_resource(ResourceKind::Unknown, b"?".to_vec(), &base, 1, &strict, &logger),
        Err(SanitizerError::UnknownResourceType)
    ));
    let (out, _) = sanitize_resource(ResourceKind::Unknown, b"?".to_vec(), &base, 1, &lenient, &logger).unwrap();
    assert_eq!(out, b"?".to_vec());
}

#[test]
fn crawl_js_rule_keeps_or_replaces() {
    let logger = NullLogger;
    let keep: RuleWithReplace<JsReplace> = RuleWithReplace::keep(LogLevel::Warn);
    let js = b"document.write('xss');".to_vec();
    assert_eq!(sanitize_js_bytes(js.clone(), &keep, &logger).unwrap(), js);
    let custom = RuleWithReplace::new(JsReplace::new("/* gone */".to_string()), LogLevel::Info);
    assert_eq!(sanitize_js_bytes(js, &custom, &logger).unwrap(), b"/* gone */".to_vec());
}

#[test]
fn crawl_enqueue_decisions() {
    let mut total = 0usize;
    assert_eq!(decide_enqueue(true, &mut total, 2, 1, 3), EnqueueDecision::AlreadyVisited);
    assert_eq!(total, 0);
    assert_eq!(decide_enqueue(false, &mut total, 2, 1, 3), EnqueueDecision::Accept { depth_exceeded: false });
    assert_eq!(decide_enqueue(false, &mut total, 2, 4, 3), EnqueueDecision::Accept { depth_exceeded: true });
    assert_eq!(decide_enqueue(false, &mut total, 2, 1, 3), EnqueueDecision::LimitReached { log: true });
    assert_eq!(decide_enqueue(false, &mut total, 2, 1, 3), EnqueueDecision::LimitReached { log: false });
    assert_eq!(total, 4);
}

#[test]
fn crawl_local_file_kinds() {
    assert_eq!(local_file_kind("pdf"), LocalFileKind::Pdf);
    assert_eq!(local_file_kind("css"), LocalFileKind::Css);
    assert_eq!(local_file_kind("js"), LocalFileKind::Js);
    assert_eq!(local_file_kind("html"), LocalFileKind::Html);
    assert_eq!(local_file_kind(""), LocalFileKind::Html);
}

#[test]
fn crawl_web_url_inputs() {
    assert_eq!(web_url("http://example.com").unwrap().as_str(), "http://example.com/");
    assert_eq!(web_url("https://example.com/a?b").unwrap().as_str(), "https://example.com/a?b");
    assert!(web_url("input1.html").is_none());
    assert!(web_url("ftp://example.com/file").is_none());
    assert!(web_url("file:///etc/passwd").is_none());
}

#[test]
fn crawl_visited_urls_register_and_limit() {
    let mut visited = VisitedUrls::new();
    visited.record("https://a.org/", 0);
    assert_eq!(visited.index_of("https://a.org/"), Some(0));
    assert_eq!(visited.index_of("https://b.org/"), None);
    let mut total = 1usize;
    assert_eq!(
        visited.enqueue("https://b.org/x.css", 0, &mut total, 2, 1, 3),
        EnqueueDecision::Accept { depth_exceeded: false }
    );
    assert_eq!(visited.index_of("https://b.org/x.css"), Some(0));
    assert_eq!(visited.enqueue("https://b.org/x.css", 0, &mut total, 2, 1, 3), EnqueueDecision::AlreadyVisited);
    assert_eq!(visited.enqueue("https://c.org/y.js", 0, &mut total, 2, 1, 3), EnqueueDecision::LimitReached { log: true });
    assert_eq!(visited.index_of("https://c.org/y.js"), None);
    assert_eq!(total, 3);
}
