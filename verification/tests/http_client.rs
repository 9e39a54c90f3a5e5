use web_sanitizer::errors::SanitizerError;
use web_sanitizer::http_client::{
    check_declared_length, check_html_content_type, check_redirect, check_url, is_safe_ip,
    is_v4_cgnat, is_v4_reserved, is_v6_private, is_xml_html_svg, require_https, BodyLimit,
    safe_addresses, IpAddress, Ipv4, Ipv6,
};
use web_sanitizer::log::{LogLevel, NullLogger};
use web_sanitizer::rules::{RuleWithReplace, RuleWithValue};
use web_sanitizer::url::{Host, Url};

fn v4(a: u8, b: u8, c: u8, d: u8) -> IpAddress {
    IpAddress::V4(Ipv4::new(a, b, c, d))
}

fn v6(s: [u16; 8]) -> IpAddress {
    IpAddress::V6(Ipv6::new(s[0], s[1], s[2], s[3], s[4], s[5], s[6], s[7]))
}

#[test]
fn http_client_test_is_safe_ip_v4() {
    assert!(!is_safe_ip(&v4(127, 0, 0, 1))); // loopback
    assert!(!is_safe_ip(&v4(192, 168, 1, 1))); // private
    assert!(!is_safe_ip(&v4(10, 0, 0, 1))); // private
    assert!(!is_safe_ip(&v4(172, 16, 0, 1))); // private
    assert!(!is_safe_ip(&v4(169, 254, 1, 1))); // link-local
    assert!(!is_safe_ip(&v4(100, 64, 0, 1))); // CGNAT start
    assert!(!is_safe_ip(&v4(100, 127, 255, 255))); // CGNAT end
    assert!(!is_safe_ip(&v4(192, 0, 2, 1))); // TEST-NET-1
    assert!(!is_safe_ip(&v4(198, 51, 100, 1))); // TEST-NET-2
    assert!(!is_safe_ip(&v4(203, 0, 113, 1))); // TEST-NET-3
    assert!(!is_safe_ip(&v4(240, 0, 0, 1))); // Reserved
    assert!(!is_safe_ip(&v4(255, 255, 255, 255))); // Broadcast
    assert!(is_safe_ip(&v4(8, 8, 8, 8)));
    assert!(is_safe_ip(&v4(1, 1, 1, 1)));
}

#[test]
fn http_client_test_is_safe_ip_v6() {
    assert!(!is_safe_ip(&v6([0, 0, 0, 0, 0, 0, 0, 1]))); // ::1 loopback
    assert!(!is_safe_ip(&v6([0xfc00, 0, 0, 0, 0, 0, 0, 1]))); // ULA
    assert!(!is_safe_ip(&v6([0xfe80, 0, 0, 0, 0, 0, 0, 1]))); // link-local
    assert!(is_safe_ip(&v6([0x2001, 0x4860, 0x4860, 0, 0, 0, 0, 0x8888]))); // Google DNS
}

#[test]
fn http_client_test_is_v4_cgnat() {
    assert!(is_v4_cgnat(&Ipv4::new(100, 64, 0, 1))); // start of range
    assert!(is_v4_cgnat(&Ipv4::new(100, 127, 255, 255))); // end of range
    assert!(is_v4_cgnat(&Ipv4::new(100, 100, 1, 1))); // middle of range
    assert!(!is_v4_cgnat(&Ipv4::new(100, 63, 255, 255))); // just below range
    assert!(!is_v4_cgnat(&Ipv4::new(100, 128, 0, 0))); // just above range
    assert!(!is_v4_cgnat(&Ipv4::new(8, 8, 8, 8))); // public
}

#[test]
fn http_client_test_is_v4_reserved() {
    assert!(is_v4_reserved(&Ipv4::new(192, 0, 2, 1))); // TEST-NET-1
    assert!(is_v4_reserved(&Ipv4::new(198, 51, 100, 1))); // TEST-NET-2
    assert!(is_v4_reserved(&Ipv4::new(203, 0, 113, 1))); // TEST-NET-3
    assert!(is_v4_reserved(&Ipv4::new(240, 0, 0, 1))); // Reserved
    assert!(is_v4_reserved(&Ipv4::new(255, 255, 255, 255))); // Broadcast
    assert!(!is_v4_reserved(&Ipv4::new(8, 8, 8, 8))); // public
    assert!(!is_v4_reserved(&Ipv4::new(1, 1, 1, 1))); // public
}

#[test]
fn http_client_mapped_and_special_v6() {
    // ::ffff:127.0.0.1 and ::ffff:10.1.2.3 carry unsafe IPv4 addresses
    assert!(!is_safe_ip(&v6([0, 0, 0, 0, 0, 0xffff, 0x7f00, 0x0001])));
    assert!(is_v6_private(&Ipv6::new(0, 0, 0, 0, 0, 0xffff, 0x0a01, 0x0203)));
    // ::ffff:8.8.8.8 is as safe as 8.8.8.8
    assert!(is_safe_ip(&v6([0, 0, 0, 0, 0, 0xffff, 0x0808, 0x0808])));
    assert!(!is_safe_ip(&v6([0, 0, 0, 0, 0, 0, 0, 0]))); // unspecified
    assert!(!is_safe_ip(&v6([0xff02, 0, 0, 0, 0, 0, 0, 1]))); // multicast
    assert!(is_v6_private(&Ipv6::new(0xfdff, 0, 0, 0, 0, 0, 0, 1)));
    assert!(is_v6_private(&Ipv6::new(0xfebf, 0, 0, 0, 0, 0, 0, 1)));
    assert!(!is_v6_private(&Ipv6::new(0xfec0, 0, 0, 0, 0, 0, 0, 1)));
    assert!(!is_safe_ip(&v4(0, 0, 0, 0)));
    assert!(!is_safe_ip(&v4(224, 0, 0, 1)));
    assert!(!is_safe_ip(&v4(172, 31, 255, 255)));
    assert!(is_safe_ip(&v4(172, 32, 0, 1)));
}

#[test]
fn http_client_https_and_lengths() {
    assert!(require_https(&Url::parse("https://example.com").unwrap()).is_ok());
    assert!(matches!(
        require_https(&Url::parse("http://example.com").unwrap()),
        Err(SanitizerError::NonHttpsUrl)
    ));
    assert!(check_declared_length(None, 10).is_ok());
    assert!(check_declared_length(Some(10), 10).is_ok());
    assert!(matches!(check_declared_length(Some(11), 10), Err(SanitizerError::ContentTooLong(10))));
}

#[test]
fn http_client_markup_detection() {
    let plain = Url::parse("https://example.com/data.bin").unwrap();
    assert!(is_xml_html_svg(Some("text/html; charset=utf-8"), &plain));
    assert!(is_xml_html_svg(Some("image/svg+xml"), &plain));
    assert!(is_xml_html_svg(Some("Application/XHTML+XML"), &plain));
    assert!(!is_xml_html_svg(Some("image/png"), &plain));
    assert!(!is_xml_html_svg(None, &plain));
    assert!(is_xml_html_svg(None, &Url::parse("https://example.com/Page.HTML").unwrap()));
    assert!(is_xml_html_svg(None, &Url::parse("https://example.com/a.xhtml").unwrap()));
    assert!(is_xml_html_svg(Some("image/png"), &Url::parse("https://example.com/i.svg").unwrap()));
}

#[test]
fn http_client_html_content_type() {
    assert!(check_html_content_type(None).is_ok());
    assert!(check_html_content_type(Some("text/html; charset=utf-8".to_string())).is_ok());
    match check_html_content_type(Some("application/json".to_string())) {
        Err(SanitizerError::MimeMismatch(Some(expected), Some(actual))) => {
            assert_eq!(expected, "text/html");
            assert_eq!(actual, "application/json");
        }
        other => panic!("unexpected {:?}", other),
    }
}

#[test]
fn http_client_body_limit() {
    let mut limit = BodyLimit::new(10, true);
    assert!(limit.accept(b"<html>").is_ok());
    assert_eq!(limit.received(), 6);
    assert!(matches!(limit.accept(b"12345"), Err(SanitizerError::ContentTooLong(10))));

    let mut scanned = BodyLimit::new(100, true);
    assert!(scanned.accept(b"<!DOCTYPE x [ <!ENT").is_ok());
    assert!(matches!(scanned.accept(b"ITY lol 'lol'>"), Err(SanitizerError::XmlEntityDeclaration)));

    let mut unscanned = BodyLimit::new(100, false);
    assert!(unscanned.accept(b"<!ENTITY lol 'lol'>").is_ok());
    assert_eq!(unscanned.received(), 19);
}

#[test]
fn http_client_check_url_and_redirects() {
    let rules = vec![Host::parse("evil.com").unwrap()];
    let keep: RuleWithReplace<String> = RuleWithReplace::keep(LogLevel::Warn);
    let refuse: RuleWithReplace<String> = RuleWithReplace::keep(LogLevel::Error);
    let logger = NullLogger;

    let good = Url::parse("https://good.org/").unwrap();
    let evil = Url::parse("https://www.evil.com/").unwrap();
    assert!(check_url(&good, "https://good.org/", &refuse, LogLevel::Error, &rules, &logger).is_ok());
    assert!(matches!(
        check_url(&evil, "https://www.evil.com/", &keep, LogLevel::Error, &rules, &logger),
        Err(SanitizerError::DangerousDomain(_))
    ));
    assert!(check_url(&evil, "https://www.evil.com/", &keep, LogLevel::Warn, &rules, &logger).is_ok());

    let idn = Url::parse("https://googl\u{e9}.com/").unwrap();
    assert!(matches!(
        check_url(&idn, "https://googl\u{e9}.com/", &refuse, LogLevel::Warn, &rules, &logger),
        Err(SanitizerError::Idn(_))
    ));
    assert!(check_url(&idn, "https://googl\u{e9}.com/", &keep, LogLevel::Warn, &rules, &logger).is_ok());

    let max = RuleWithValue::new(2usize, LogLevel::Error);
    assert!(check_redirect(&good, good.as_str(), 2, &keep, &max, LogLevel::Error, &rules, &logger).is_ok());
    assert!(matches!(
        check_redirect(&good, good.as_str(), 3, &keep, &max, LogLevel::Error, &rules, &logger),
        Err(SanitizerError::TooManyRedirects(2))
    ));
    let lenient = RuleWithValue::new(2usize, LogLevel::Warn);
    assert!(check_redirect(&good, good.as_str(), 3, &keep, &lenient, LogLevel::Error, &rules, &logger).is_ok());
    assert!(matches!(
        check_redirect(&evil, evil.as_str(), 1, &keep, &max, LogLevel::Error, &rules, &logger),
        Err(SanitizerError::DangerousDomain(_))
    ));
}

#[test]
fn http_client_safe_addresses_filter() {
    let found = vec![
        v4(127, 0, 0, 1),
        v4(8, 8, 8, 8),
        v6([0, 0, 0, 0, 0, 0, 0, 1]),
        v4(1, 1, 1, 1),
        v6([0x2001, 0x4860, 0x4860, 0, 0, 0, 0, 0x8888]),
    ];
    let kept = safe_addresses(&found);
    assert_eq!(kept.len(), 3);
    match (kept[0], kept[1], kept[2]) {
        (IpAddress::V4(a), IpAddress::V4(b), IpAddress::V6(c)) => {
            assert_eq!(a.octets, [8, 8, 8, 8]);
            assert_eq!(b.octets, [1, 1, 1, 1]);
            assert_eq!(c.segments[0], 0x2001);
        }
        other => panic!("unexpected {:?}", other),
    }
    assert!(safe_addresses(&vec![v4(10, 0, 0, 1)]).is_empty());
}
