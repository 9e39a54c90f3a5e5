use web_sanitizer::html::{
    attribute_edit, element_action, AttributeEdit, ElementAction, dangerous_link_replacement, dangerous_uri, dangerous_uri_attributes, event_handler_attributes,
    inline_script_allowed, inline_script_hash, inspect_link, is_event_handler, is_stylesheet_link,
    link_attribute, script_allowed, subresource_extension, written_host_of, CrawlerState,
};
use web_sanitizer::url::{Host, Url};

fn localhost() -> Url {
    Url::parse("https://localhost").unwrap()
}

fn strings(v: &[&str]) -> Vec<String> {
    v.iter().map(|s| s.to_string()).collect()
}

#[test]
fn html_event_handler_names() {
    assert!(is_event_handler("onclick"));
    assert!(is_event_handler("ONLOAD"));
    assert!(is_event_handler("OnMouseOver"));
    assert!(!is_event_handler("class"));
    assert!(!is_event_handler("button"));
    let names = strings(&["onclick", "class", "ONLOAD"]);
    assert_eq!(event_handler_attributes(&names), strings(&["onclick", "ONLOAD"]));
    assert_eq!(event_handler_attributes(&Vec::new()), Vec::<String>::new());
}

#[test]
fn html_dangerous_uris_sanitization() {
    let attrs = vec![
        ("href".to_string(), "javascript:alert(1)".to_string()),
        ("src".to_string(), "  data:text/html,malicious  ".to_string()),
        ("data-url".to_string(), "other".to_string()),
    ];
    let found = dangerous_uri_attributes(&attrs);
    assert_eq!(
        found,
        vec![
            ("href".to_string(), "javascript:alert(1)".to_string()),
            ("src".to_string(), "data:text/html,malicious".to_string()),
        ]
    );
}

#[test]
fn html_dangerous_uris_bypass_whitespace() {
    assert_eq!(dangerous_uri("\n\t javascript:alert(1)"), Some("javascript:alert(1)".to_string()));
    assert_eq!(dangerous_uri("JavaScript:alert(1)"), Some("javascript:alert(1)".to_string()));
    assert_eq!(dangerous_uri("DATA:text/plain,x"), Some("data:text/plain,x".to_string()));
    assert_eq!(dangerous_uri("https://example.com"), None);
    assert_eq!(dangerous_uri("my-javascript:thing"), None);
}

#[test]
fn html_script_src_allowed_and_blocked() {
    let allow = strings(&["trusted.com"]);
    let trusted = Url::parse("https://trusted.com/lib.js").unwrap();
    let untrusted = Url::parse("https://untrusted.com/lib.js").unwrap();
    assert!(script_allowed(&allow, &trusted));
    assert!(!script_allowed(&allow, &untrusted));
    let by_prefix = strings(&["https://cdn.example.com/libs/"]);
    assert!(script_allowed(&by_prefix, &Url::parse("https://cdn.example.com/libs/a.js").unwrap()));
    assert!(!script_allowed(&by_prefix, &Url::parse("https://cdn.example.com/other/a.js").unwrap()));
    assert!(!script_allowed(&Vec::new(), &trusted));
}

#[test]
fn html_script_inline_hash() {
    assert_eq!(inline_script_hash("alert(1)"), "sha256-bhHHL3z2vDgxUt0W3dWQOrprscmda2Y5pLsLg4GF+pI=");
    let allow = strings(&["sha256-bhHHL3z2vDgxUt0W3dWQOrprscmda2Y5pLsLg4GF+pI="]);
    assert!(inline_script_allowed(&allow, "alert(1)"));
    assert!(!inline_script_allowed(&allow, "alert(2)"));
    assert!(!inline_script_allowed(&Vec::new(), "alert(1)"));
}

#[test]
fn html_written_host() {
    assert_eq!(written_host_of("http://googl\u{e9}.com/x"), Some("googl\u{e9}.com".chars().collect()));
    assert_eq!(written_host_of("//Example.com:8080/a"), Some("Example.com".chars().collect()));
    assert_eq!(written_host_of("https://user:pw@host.org?q"), Some("host.org".chars().collect()));
    assert_eq!(written_host_of("  https://a.b#frag"), Some("a.b".chars().collect()));
    assert_eq!(written_host_of("page.html?next=//evil.com"), None);
    assert_eq!(written_host_of("/absolute/path"), None);
}

#[test]
fn html_idn_rewriting() {
    let inspected = inspect_link("http://googl\u{e9}.com", &localhost(), &Vec::new()).unwrap();
    assert_eq!(inspected.resolved.as_str(), "http://xn--googl-fsa.com/");
    let finding = inspected.idn.expect("an internationalized host is reported");
    assert!(finding.contains("googl"));
    assert!(inspected.dangerous.is_none());

    // The same host written with a combining accent is normalized first.
    let combining = inspect_link("http://google\u{301}.com", &localhost(), &Vec::new()).unwrap();
    assert_eq!(combining.resolved.as_str(), "http://xn--googl-fsa.com/");
    assert!(combining.idn.unwrap().contains('\u{e9}'));

    let ip = inspect_link("http://0x7f.0.0.1/", &localhost(), &Vec::new()).unwrap();
    assert_eq!(ip.resolved.as_str(), "http://127.0.0.1/");
    assert!(ip.idn.is_none());
    let v6 = inspect_link("http://[::1]/", &localhost(), &Vec::new()).unwrap();
    assert!(v6.idn.is_none());
    let upper = inspect_link("http://Example.com/", &localhost(), &Vec::new()).unwrap();
    assert!(upper.idn.is_some());

    let plain = inspect_link("https://example.com/page", &localhost(), &Vec::new()).unwrap();
    assert!(plain.idn.is_none());
    let relative = inspect_link("sub/page.html", &localhost(), &Vec::new()).unwrap();
    assert_eq!(relative.resolved.as_str(), "https://localhost/sub/page.html");
    assert!(relative.idn.is_none());
}

#[test]
fn html_dangerous_domain_links() {
    let rules = vec![Host::parse("evil.com").unwrap()];
    let link = inspect_link("https://evil.com/x", &localhost(), &rules).unwrap();
    assert_eq!(link.dangerous.unwrap().as_str(), "evil.com");
    let other = inspect_link("https://good.org/x", &localhost(), &rules).unwrap();
    assert!(other.dangerous.is_none());
    let sub = inspect_link("https://www.evil.com/x", &localhost(), &rules).unwrap();
    assert_eq!(sub.dangerous.unwrap().as_str(), "www.evil.com");
    let broader = vec![Host::parse("www.evil.com").unwrap()];
    assert!(inspect_link("https://evil.com/", &localhost(), &broader).unwrap().dangerous.is_none());

    let resolved = Url::parse("https://evil.com/path?q=1").unwrap();
    let (text, now) = dangerous_link_replacement(&resolved, "example.com");
    assert_eq!(text, "https://example.com/path?q=1");
    assert_eq!(now.unwrap().as_str(), "https://example.com/path?q=1");
    let (text, now) = dangerous_link_replacement(&resolved, "not a host/");
    assert_eq!(text, "not a host/");
    assert!(now.is_none());
}

#[test]
fn html_unresolvable_link() {
    let base = Url::parse("data:text/plain,x").unwrap();
    assert!(inspect_link("relative", &base, &Vec::new()).is_none());
}

#[test]
fn html_element_links() {
    assert_eq!(link_attribute("a"), Some("href"));
    assert_eq!(link_attribute("base"), Some("href"));
    assert_eq!(link_attribute("image"), Some("href"));
    assert_eq!(link_attribute("img"), Some("src"));
    assert_eq!(link_attribute("script"), Some("src"));
    assert_eq!(link_attribute("div"), None);
    assert_eq!(subresource_extension("link"), Some("css"));
    assert_eq!(subresource_extension("img"), Some("png"));
    assert_eq!(subresource_extension("image"), Some("png"));
    assert_eq!(subresource_extension("source"), Some("js"));
    assert_eq!(subresource_extension("script"), Some("js"));
    assert_eq!(subresource_extension("a"), None);
    assert!(is_stylesheet_link("StyleSheet"));
    assert!(is_stylesheet_link("alternate stylesheet"));
    assert!(!is_stylesheet_link("icon"));
    assert!(!is_stylesheet_link(""));
}

#[test]
fn html_crawler_state() {
    let mut state = CrawlerState::new(localhost());
    state.set_base("https://example.com/docs/");
    assert_eq!(state.base.as_str(), "https://example.com/docs/");
    state.set_base("sub/");
    assert_eq!(state.base.as_str(), "https://example.com/docs/sub/");

    let resolved = state.base.join("lib.js").unwrap();
    let name = state.add_subresource(resolved, "js");
    assert!(name.starts_with("sub_"));
    assert!(name.ends_with(".js"));
    assert_eq!(state.subresources.len(), 1);
    assert_eq!(state.subresources[0].0.as_str(), "https://example.com/docs/sub/lib.js");
    assert_eq!(state.subresources[0].1, name);
}

#[test]
fn html_element_actions() {
    assert_eq!(element_action("base", ""), ElementAction::SetBase);
    assert_eq!(element_action("script", ""), ElementAction::Script);
    assert_eq!(element_action("a", ""), ElementAction::CheckLink { attr: "href", fetch_ext: None });
    assert_eq!(
        element_action("link", "Stylesheet"),
        ElementAction::CheckLink { attr: "href", fetch_ext: Some("css") }
    );
    assert_eq!(element_action("link", "icon"), ElementAction::CheckLink { attr: "href", fetch_ext: None });
    assert_eq!(element_action("img", ""), ElementAction::CheckLink { attr: "src", fetch_ext: Some("png") });
    assert_eq!(element_action("image", ""), ElementAction::CheckLink { attr: "href", fetch_ext: Some("png") });
    assert_eq!(element_action("source", ""), ElementAction::CheckLink { attr: "src", fetch_ext: Some("js") });
    assert_eq!(element_action("div", ""), ElementAction::Ignore);
}

#[test]
fn html_attribute_edits() {
    assert_eq!(attribute_edit(""), AttributeEdit::Remove);
    assert_eq!(attribute_edit("#"), AttributeEdit::Assign("#".to_string()));
}
