use vstd::prelude::*;

use crate::errors::SanitizerError;
use crate::html::{idn_check, idn_finding};
use crate::log::{Log, LogLevel};
use crate::resources::{contains_entity, lemma_scan_concat, lemma_scan_detects, scan_run, EntityScanner};
use crate::resources::mime::{clean, clean_ascii, clean_spec};
use crate::rules::{RuleWithReplace, RuleWithValue};
use crate::text::{
    ascii_lowercase, chars_contains_str, chars_ends_with_str, chars_eq_str, chars_of,
    is_ascii_text, seq_contains, seq_ends_with, to_lowercase, unicode_lowercase,
};
use crate::url::{host_matches, url_host, url_path, url_scheme, Host, RuleMatch, Url};


verus! {

/*================== ADDRESSES ===================*/

/// An IPv4 address, by its four octets.
#[derive(Debug, Clone, Copy)]
pub struct Ipv4 {
    pub octets: [u8; 4],
}

/// An IPv6 address, by its eight 16-bit segments.
#[derive(Debug, Clone, Copy)]
pub struct Ipv6 {
    pub segments: [u16; 8],
}

/// An IP address of either version.
#[derive(Debug, Clone, Copy)]
pub enum IpAddress {
    V4(Ipv4),
    V6(Ipv6),
}

impl Ipv4 {
    /// The address `a.b.c.d`.
    pub fn new(a: u8, b: u8, c: u8, d: u8) -> (res: Self)
        ensures
            res.octets@ == seq![a, b, c, d],
    {
        let res = Ipv4 { octets: [a, b, c, d] };
        assert(res.octets@ =~= seq![a, b, c, d]);
        res
    }
}

impl Ipv6 {
    /// The address with segments `a:b:c:d:e:f:g:h`.
    pub fn new(a: u16, b: u16, c: u16, d: u16, e: u16, f: u16, g: u16, h: u16) -> (res: Self)
        ensures
            res.segments@ == seq![a, b, c, d, e, f, g, h],
    {
        let res = Ipv6 { segments: [a, b, c, d, e, f, g, h] };
        assert(res.segments@ =~= seq![a, b, c, d, e, f, g, h]);
        res
    }
}

/// Loopback: 127.0.0.0/8.
pub open spec fn v4_loopback(o: Seq<u8>) -> bool {
    o[0] == 127
}

/// Private: 10.0.0.0/8, 172.16.0.0/12 and 192.168.0.0/16.
pub open spec fn v4_private(o: Seq<u8>) -> bool {
    o[0] == 10 || (o[0] == 172 && 16 <= o[1] <= 31) || (o[0] == 192 && o[1] == 168)
}

/// Link-local: 169.254.0.0/16.
pub open spec fn v4_link_local(o: Seq<u8>) -> bool {
    o[0] == 169 && o[1] == 254
}

/// Multicast: 224.0.0.0/4.
pub open spec fn v4_multicast(o: Seq<u8>) -> bool {
    224 <= o[0] <= 239
}

/// Broadcast: 255.255.255.255.
pub open spec fn v4_broadcast(o: Seq<u8>) -> bool {
    o[0] == 255 && o[1] == 255 && o[2] == 255 && o[3] == 255
}

/// Unspecified: 0.0.0.0.
pub open spec fn v4_unspecified(o: Seq<u8>) -> bool {
    o[0] == 0 && o[1] == 0 && o[2] == 0 && o[3] == 0
}

/// Carrier-grade NAT: 100.64.0.0/10.
pub open spec fn v4_cgnat(o: Seq<u8>) -> bool {
    o[0] == 100 && 64 <= o[1] <= 127
}

/// Documentation and reserved ranges: 192.0.2.0/24, 198.51.100.0/24, 203.0.113.0/24 and
/// 240.0.0.0/4.
pub open spec fn v4_reserved(o: Seq<u8>) -> bool {
    (o[0] == 192 && o[1] == 0 && o[2] == 2) || (o[0] == 198 && o[1] == 51 && o[2] == 100) || (o[0]
        == 203 && o[1] == 0 && o[2] == 113) || o[0] >= 240
}

/// An IPv4 address is safe to connect to when it is in none of the loopback, private,
/// link-local, multicast, broadcast, unspecified, carrier-grade NAT or reserved ranges.
pub open spec fn v4_safe(o: Seq<u8>) -> bool {
    !v4_loopback(o) && !v4_private(o) && !v4_link_local(o) && !v4_multicast(o) && !v4_broadcast(o)
        && !v4_unspecified(o) && !v4_cgnat(o) && !v4_reserved(o)
}

/// Loopback: ::1.
pub open spec fn v6_loopback(s: Seq<u16>) -> bool {
    s[0] == 0 && s[1] == 0 && s[2] == 0 && s[3] == 0 && s[4] == 0 && s[5] == 0 && s[6] == 0 && s[7]
        == 1
}

/// Unspecified: ::.
pub open spec fn v6_unspecified(s: Seq<u16>) -> bool {
    s[0] == 0 && s[1] == 0 && s[2] == 0 && s[3] == 0 && s[4] == 0 && s[5] == 0 && s[6] == 0 && s[7]
        == 0
}

/// Multicast: ff00::/8.
pub open spec fn v6_multicast(s: Seq<u16>) -> bool {
    s[0] >= 0xff00
}

/// The IPv4 address that an IPv4-mapped IPv6 address (::ffff:0:0/96) carries.
pub open spec fn v6_mapped_v4(s: Seq<u16>) -> Option<Seq<u8>> {
    if s[0] == 0 && s[1] == 0 && s[2] == 0 && s[3] == 0 && s[4] == 0 && s[5] == 0xffff {
        Some(seq![(s[6] / 256) as u8, (s[6] % 256) as u8, (s[7] / 256) as u8, (s[7] % 256) as u8])
    } else {
        None
    }
}

/// Private or local: unique local (fc00::/7), link-local (fe80::/10), or an IPv4-mapped address
/// whose IPv4 address is not safe.
pub open spec fn v6_private(s: Seq<u16>) -> bool {
    ||| 0xfc00 <= s[0] <= 0xfdff
    ||| 0xfe80 <= s[0] <= 0xfebf
    ||| (v6_mapped_v4(s) matches Some(o) && !v4_safe(o))
}

/// An IPv6 address is safe to connect to when it is not loopback, private or local, multicast,
/// or unspecified.
pub open spec fn v6_safe(s: Seq<u16>) -> bool {
    !v6_loopback(s) && !v6_private(s) && !v6_multicast(s) && !v6_unspecified(s)
}

/// Whether an address is safe to connect to.
pub open spec fn ip_safe(ip: IpAddress) -> bool {
    match ip {
        IpAddress::V4(a) => v4_safe(a.octets@),
        IpAddress::V6(a) => v6_safe(a.segments@),
    }
}

/// Determines if an IPv4 address falls within the CGNAT range (100.64.0.0/10).
pub fn is_v4_cgnat(v4: &Ipv4) -> (res: bool)
    ensures
        res == v4_cgnat(v4.octets@),
{
    let o = v4.octets;
    o[0] == 100 && 64 <= o[1] && o[1] <= 127
}

/// Checks if an IPv4 address is in a reserved/test network range (e.g. TEST-NET, 240.0.0.0/4).
pub fn is_v4_reserved(v4: &Ipv4) -> (res: bool)
    ensures
        res == v4_reserved(v4.octets@),
{
    let o = v4.octets;
    (o[0] == 192 && o[1] == 0 && o[2] == 2) || (o[0] == 198 && o[1] == 51 && o[2] == 100) || (o[0]
        == 203 && o[1] == 0 && o[2] == 113) || o[0] >= 240
}

fn is_v4_safe(v4: &Ipv4) -> (res: bool)
    ensures
        res == v4_safe(v4.octets@),
{
    let o = v4.octets;
    let loopback = o[0] == 127;
    let private = o[0] == 10 || (o[0] == 172 && 16 <= o[1] && o[1] <= 31) || (o[0] == 192 && o[1]
        == 168);
    let link_local = o[0] == 169 && o[1] == 254;
    let multicast = 224 <= o[0] && o[0] <= 239;
    let broadcast = o[0] == 255 && o[1] == 255 && o[2] == 255 && o[3] == 255;
    let unspecified = o[0] == 0 && o[1] == 0 && o[2] == 0 && o[3] == 0;
    !loopback && !private && !link_local && !multicast && !broadcast && !unspecified
        && !is_v4_cgnat(v4) && !is_v4_reserved(v4)
}

/// Returns true if the IPv6 address is in a private/local range (ULA, link-local, or mapped IPv4 private).
pub fn is_v6_private(v6: &Ipv6) -> (res: bool)
    ensures
        res == v6_private(v6.segments@),
{
    let s = v6.segments;
    let s0 = s[0];
    assert((s0 & 0xfe00u16) == 0xfc00u16 <==> (0xfc00u16 <= s0 && s0 <= 0xfdffu16)) by (bit_vector);
    assert((s0 & 0xffc0u16) == 0xfe80u16 <==> (0xfe80u16 <= s0 && s0 <= 0xfebfu16)) by (bit_vector);
    if (s0 & 0xfe00) == 0xfc00 || (s0 & 0xffc0) == 0xfe80 {
        return true;
    }
    if s[0] == 0 && s[1] == 0 && s[2] == 0 && s[3] == 0 && s[4] == 0 && s[5] == 0xffff {
        let v4 = Ipv4::new((s[6] / 256) as u8, (s[6] % 256) as u8, (s[7] / 256) as u8, (s[7] % 256) as u8);
        !is_v4_safe(&v4)
    } else {
        false
    }
}

/// Validates if an IP address is safe (blocks all SSRF-relevant private/loopback/multicast ranges).
pub fn is_safe_ip(ip: &IpAddress) -> (res: bool)
    ensures
        res == ip_safe(*ip),
{
    match ip {
        IpAddress::V4(v4) => is_v4_safe(v4),
        IpAddress::V6(v6) => {
            let s = v6.segments;
            let s0 = s[0];
            assert((s0 & 0xff00u16) == 0xff00u16 <==> s0 >= 0xff00u16) by (bit_vector);
            let loopback = s[0] == 0 && s[1] == 0 && s[2] == 0 && s[3] == 0 && s[4] == 0 && s[5] == 0
                && s[6] == 0 && s[7] == 1;
            let unspecified = s[0] == 0 && s[1] == 0 && s[2] == 0 && s[3] == 0 && s[4] == 0 && s[5]
                == 0 && s[6] == 0 && s[7] == 0;
            let multicast = (s0 & 0xff00) == 0xff00;
            !loopback && !is_v6_private(v6) && !multicast && !unspecified
        },
    }
}

/// The safe addresses among `ips`, in order.
pub open spec fn safe_addresses_of(ips: Seq<IpAddress>) -> Seq<IpAddress>
    decreases ips.len(),
{
    if ips.len() == 0 {
        Seq::empty()
    } else {
        let rest = safe_addresses_of(ips.drop_last());
        if ip_safe(ips.last()) {
            rest.push(ips.last())
        } else {
            rest
        }
    }
}

/// The addresses a host name resolved to that may be connected to, in order.
pub fn safe_addresses(ips: &Vec<IpAddress>) -> (res: Vec<IpAddress>)
    ensures
        res@ == safe_addresses_of(ips@),
{
    let mut out: Vec<IpAddress> = Vec::new();
    let mut i: usize = 0;
    while i < ips.len()
        invariant
            i <= ips@.len(),
            out@ == safe_addresses_of(ips@.take(i as int)),
        decreases ips.len() - i,
    {
        let ghost prev = ips@.take(i as int);
        let ip = ips[i];
        if is_safe_ip(&ip) {
            out.push(ip);
        }
        assert(ips@.take(i + 1).drop_last() =~= prev);
        i = i + 1;
    }
    assert(ips@.take(ips@.len() as int) =~= ips@);
    out
}

/// Every address that `safe_addresses` keeps is safe.
pub proof fn lemma_kept_addresses_are_safe(ips: Seq<IpAddress>)
    ensures
        forall|j: int|
            0 <= j < safe_addresses_of(ips).len() ==> ip_safe(#[trigger] safe_addresses_of(ips)[j]),
    decreases ips.len(),
{
    if ips.len() > 0 {
        let rest = safe_addresses_of(ips.drop_last());
        lemma_kept_addresses_are_safe(ips.drop_last());
        assert forall|j: int|
            0 <= j < safe_addresses_of(ips).len() implies ip_safe(
            #[trigger] safe_addresses_of(ips)[j],
        ) by {
            if j < rest.len() {
                assert(ip_safe(rest[j]));
            }
        }
    }
}

/// The IPv4-mapped IPv6 form of an IPv4 address is safe exactly when the IPv4 address is: the
/// mapped form gives no way around the IPv4 checks.
pub proof fn lemma_mapped_v4_same_verdict(a: u8, b: u8, c: u8, d: u8)
    ensures
        v6_safe(
            seq![0u16, 0, 0, 0, 0, 0xffff, (a as int * 256 + b as int) as u16, (c as int * 256 + d as int) as u16],
        ) == v4_safe(seq![a, b, c, d]),
{
    let s = seq![0u16, 0, 0, 0, 0, 0xffff, (a as int * 256 + b as int) as u16, (c as int * 256 + d as int) as u16];
    assert(s[6] / 256 == a && s[6] % 256 == b && s[7] / 256 == c && s[7] % 256 == d);
    assert(v6_mapped_v4(s) == Some(seq![a, b, c, d]));
}

/*================== FETCHING ===================*/

/// Only HTTPS URLs are fetched.
pub fn require_https(url: &Url) -> (res: Result<(), SanitizerError>)
    ensures
        url_scheme(url@) == "https"@ ==> res is Ok,
        url_scheme(url@) != "https"@ ==> res matches Err(SanitizerError::NonHttpsUrl),
{
    let scheme = chars_of(url.scheme().as_str());
    if chars_eq_str(&scheme, "https") {
        Ok(())
    } else {
        Err(SanitizerError::NonHttpsUrl)
    }
}

/// A response whose declared length exceeds `limit` bytes is refused before its body is read.
pub fn check_declared_length(declared: Option<usize>, limit: usize) -> (res: Result<(), SanitizerError>)
    ensures
        (declared matches Some(l) && l > limit) ==> (res matches Err(SanitizerError::ContentTooLong(m))
            && m == limit),
        !(declared matches Some(l) && l > limit) ==> res is Ok,
{
    match declared {
        Some(l) => {
            if l > limit {
                Err(SanitizerError::ContentTooLong(limit))
            } else {
                Ok(())
            }
        },
        None => Ok(()),
    }
}

/// A declared content type names markup when its cleaned form mentions `html`, `xml` or `svg`.
pub open spec fn markup_type(content_type: Seq<char>) -> bool {
    let c = clean_spec(content_type);
    seq_contains(c, "html"@) || seq_contains(c, "xml"@) || seq_contains(c, "svg"@)
}

/// A path names markup when, lowercased, it ends with `.html`, `.htm`, `.xml`, `.svg` or `.xhtml`.
pub open spec fn markup_path(path: Seq<char>) -> bool {
    let p = unicode_lowercase(path);
    seq_ends_with(p, ".html"@) || seq_ends_with(p, ".htm"@) || seq_ends_with(p, ".xml"@)
        || seq_ends_with(p, ".svg"@) || seq_ends_with(p, ".xhtml"@)
}

/// A resource is markup (and so scanned for entity declarations) when its declared type or its
/// URL's path says so.
pub open spec fn is_markup(content_type: Option<Seq<char>>, url: Seq<char>) -> bool {
    (content_type matches Some(c) && markup_type(c)) || markup_path(url_path(url))
}

/// `is_markup` where the declared type and the path are ASCII, so lowercasing is ASCII
/// lowercasing.
pub open spec fn is_markup_ascii(content_type: Option<Seq<char>>, url: Seq<char>) -> bool {
    let by_type = match content_type {
        Some(ct) => {
            let c = clean_ascii(ct);
            seq_contains(c, "html"@) || seq_contains(c, "xml"@) || seq_contains(c, "svg"@)
        },
        None => false,
    };
    let p = ascii_lowercase(url_path(url));
    by_type || seq_ends_with(p, ".html"@) || seq_ends_with(p, ".htm"@) || seq_ends_with(p, ".xml"@)
        || seq_ends_with(p, ".svg"@) || seq_ends_with(p, ".xhtml"@)
}

/// Whether the resource at `url`, declared as `content_type`, is HTML, XML or SVG.
pub fn is_xml_html_svg(content_type: Option<&str>, url: &Url) -> (res: bool)
    ensures
        res == is_markup(
            match content_type {
                Some(c) => Some(c@),
                None => None,
            },
            url@,
        ),
        (match content_type {
            Some(c) => is_ascii_text(c@),
            None => true,
        }) && is_ascii_text(url_path(url@)) ==> res == is_markup_ascii(
            match content_type {
                Some(c) => Some(c@),
                None => None,
            },
            url@,
        ),
{
    let by_type = match content_type {
        Some(ct) => {
            let cleaned = clean(ct);
            let c = chars_of(cleaned.as_str());
            chars_contains_str(&c, "html") || chars_contains_str(&c, "xml") || chars_contains_str(
                &c,
                "svg",
            )
        },
        None => false,
    };
    if by_type {
        return true;
    }
    let path = url.path();
    let lower = to_lowercase(path.as_str());
    let p = chars_of(lower.as_str());
    chars_ends_with_str(&p, ".html") || chars_ends_with_str(&p, ".htm") || chars_ends_with_str(
        &p,
        ".xml",
    ) || chars_ends_with_str(&p, ".svg") || chars_ends_with_str(&p, ".xhtml")
}

/// A document is only rewritten when its declared content type, if any, contains `text/html`.
pub fn check_html_content_type(content_type: Option<String>) -> (res: Result<(), SanitizerError>)
    ensures
        match content_type {
            None => res is Ok,
            Some(ct) => if seq_contains(ct@, "text/html"@) {
                res is Ok
            } else {
                res matches Err(SanitizerError::MimeMismatch(Some(e), Some(a))) && e@ == "text/html"@
                    && a@ == ct@
            },
        },
{
    match content_type {
        None => Ok(()),
        Some(ct) => {
            let c = chars_of(ct.as_str());
            if chars_contains_str(&c, "text/html") {
                Ok(())
            } else {
                Err(SanitizerError::MimeMismatch(Some("text/html".to_owned()), Some(ct)))
            }
        },
    }
}

/// The running checks on a response body as its chunks arrive: its size against a limit and,
/// for markup, the absence of `<!ENTITY` declarations.
pub struct BodyLimit {
    received: usize,
    limit: usize,
    scan: bool,
    scanner: EntityScanner,
    body: Ghost<Seq<u8>>,
}

impl BodyLimit {
    /// The bytes accepted so far.
    pub closed spec fn body(&self) -> Seq<u8> {
        self.body@
    }

    /// The most bytes that may be accepted.
    pub closed spec fn limit(&self) -> nat {
        self.limit as nat
    }

    /// Whether the body is scanned for entity declarations.
    pub closed spec fn scans(&self) -> bool {
        self.scan
    }

    /// The counters agree with the body accepted so far, which is within the limit and, when
    /// scanned, free of entity declarations.
    pub closed spec fn wf(&self) -> bool {
        &&& self.received == self.body@.len()
        &&& self.received <= self.limit
        &&& self.scanner.progress() < 8
        &&& self.scan ==> self.scanner.progress() == scan_run(0, self.body@) && !contains_entity(
            self.body@,
        )
    }

    /// Checks for a body of at most `limit` bytes, scanned for entity declarations when `scan`.
    pub fn new(limit: usize, scan: bool) -> (res: Self)
        ensures
            res.wf(),
            res.body() == Seq::<u8>::empty(),
            res.limit() == limit,
            res.scans() == scan,
    {
        proof {
            lemma_scan_detects(Seq::<u8>::empty());
        }
        BodyLimit { received: 0, limit, scan, scanner: EntityScanner::new(), body: Ghost(Seq::empty()) }
    }

    /// The number of bytes accepted so far.
    pub fn received(&self) -> (res: usize)
        requires
            self.wf(),
        ensures
            res == self.body().len(),
    {
        self.received
    }

    /// Accepts the next chunk of the body, or refuses it: `ContentTooLong` with the limit when the
    /// body would exceed it, else `XmlEntityDeclaration` when the scanned body would contain a
    /// `<!ENTITY` declaration.
    pub fn accept(&mut self, chunk: &[u8]) -> (res: Result<(), SanitizerError>)
        requires
            old(self).wf(),
        ensures
            final(self).limit() == old(self).limit(),
            final(self).scans() == old(self).scans(),
            old(self).body().len() + chunk@.len() > old(self).limit() ==> (res matches Err(
                SanitizerError::ContentTooLong(m),
            ) && m == old(self).limit()),
            old(self).body().len() + chunk@.len() <= old(self).limit() && old(self).scans()
                && contains_entity(old(self).body() + chunk@) ==> res matches Err(
                SanitizerError::XmlEntityDeclaration,
            ),
            old(self).body().len() + chunk@.len() <= old(self).limit() && !(old(self).scans()
                && contains_entity(old(self).body() + chunk@)) ==> res is Ok && final(self).wf()
                && final(self).body() == old(self).body() + chunk@,
    {
        if chunk.len() > self.limit - self.received {
            return Err(SanitizerError::ContentTooLong(self.limit));
        }
        let ghost before = self.body@;
        if self.scan {
            proof {
                lemma_scan_concat(0, before, chunk@);
                lemma_scan_detects(before + chunk@);
            }
            if self.scanner.feed_chunk(chunk) {
                return Err(SanitizerError::XmlEntityDeclaration);
            }
        }
        self.received = self.received + chunk.len();
        self.body = Ghost(before + chunk@);
        Ok(())
    }
}

/*================== NAVIGATION ===================*/

/// Whether `host` is one of the dangerous-domain `rules` or a subdomain of one (`host.matches(rule)`).
pub open spec fn host_matches_any_rule(host: Seq<char>, rules: Seq<Host>) -> bool {
    exists|i: int| 0 <= i < rules.len() && host_matches(host, #[trigger] rules[i]@)
}

/// The IDN finding for the URL `url` written as `written`.
pub open spec fn url_idn(url: Seq<char>, written: Seq<char>) -> Option<Seq<char>> {
    match url_host(url) {
        Some(h) => idn_finding(h, written),
        None => None,
    }
}

/// Whether the host of `url` matches a dangerous-domain rule.
pub open spec fn url_dangerous(url: Seq<char>, rules: Seq<Host>) -> bool {
    url_host(url) matches Some(h) && host_matches_any_rule(h, rules)
}

/// The host of `url` when it matches a dangerous-domain rule.
fn dangerous_host(url: &Url, rules: &Vec<Host>) -> (res: Option<Host>)
    ensures
        match res {
            Some(h) => url_host(url@) == Some(h@) && url_dangerous(url@, rules@),
            None => !url_dangerous(url@, rules@),
        },
{
    let host = match url.host() {
        Some(h) => h,
        None => return None,
    };
    let mut i: usize = 0;
    while i < rules.len()
        invariant
            i <= rules@.len(),
            url_host(url@) == Some(host@),
            forall|j: int| 0 <= j < i ==> !host_matches(host@, #[trigger] rules@[j]@),
        decreases rules.len() - i,
    {
        if host.matches(&rules[i]) {
            assert(host_matches(host@, rules@[i as int]@));
            return Some(host);
        }
        i = i + 1;
    }
    None
}

fn url_idn_check(url: &Url, written: &str) -> (res: Option<String>)
    ensures
        match url_idn(url@, written@) {
            None => res is None,
            Some(f) => res matches Some(o) && o@ == f,
        },
{
    match url.host() {
        Some(h) => idn_check(&h, written),
        None => None,
    }
}

/// Checks a URL before its document is fetched: an IDN finding is handled by the `idn` rule, then
/// a dangerous host at `dangerous_level`. Gives the error of the first of them whose level is
/// `Error`; the others are logged.
pub fn check_url<R: Default, L: Log>(
    url: &Url,
    written: &str,
    idn: &RuleWithReplace<R>,
    dangerous_level: LogLevel,
    rules: &Vec<Host>,
    logger: &L,
) -> (res: Result<(), SanitizerError>)
    ensures
        (url_idn(url@, written@) is Some && idn.rule_level() == LogLevel::Error) ==> (
        res matches Err(SanitizerError::Idn(s)) && url_idn(url@, written@) == Some(s@)),
        !(url_idn(url@, written@) is Some && idn.rule_level() == LogLevel::Error) ==> {
            &&& (url_dangerous(url@, rules@) && dangerous_level == LogLevel::Error) ==> (
            res matches Err(SanitizerError::DangerousDomain(h)) && url_host(url@) == Some(h@))
            &&& !(url_dangerous(url@, rules@) && dangerous_level == LogLevel::Error) ==> res is Ok
        },
{
    match url_idn_check(url, written) {
        Some(original) => {
            match idn.handle(logger, SanitizerError::Idn(original)) {
                Err(e) => return Err(e),
                Ok(_) => {},
            }
        },
        None => {},
    }
    match dangerous_host(url, rules) {
        Some(h) => dangerous_level.handle(logger, SanitizerError::DangerousDomain(h)),
        None => Ok(()),
    }
}

/// Checks a redirect to `target` after `previous` requests: an IDN finding is handled by the
/// `idn` rule; the redirect that makes `previous` one more than the maximum is handled by
/// `max_redirects`; then a dangerous host at `dangerous_level`. Gives the error of the first of
/// them whose level is `Error`; the others are logged.
pub fn check_redirect<R: Default, L: Log>(
    target: &Url,
    written: &str,
    previous: usize,
    idn: &RuleWithReplace<R>,
    max_redirects: &RuleWithValue<usize>,
    dangerous_level: LogLevel,
    rules: &Vec<Host>,
    logger: &L,
) -> (res: Result<(), SanitizerError>)
    ensures
        ({
            let idn_err = url_idn(target@, written@) is Some && idn.rule_level() == LogLevel::Error;
            let count_err = previous == max_redirects.value + 1 && max_redirects.level
                == LogLevel::Error;
            let domain_err = url_dangerous(target@, rules@) && dangerous_level == LogLevel::Error;
            &&& idn_err ==> (res matches Err(SanitizerError::Idn(s)) && url_idn(target@, written@)
                == Some(s@))
            &&& !idn_err && count_err ==> (res matches Err(SanitizerError::TooManyRedirects(m))
                && m == max_redirects.value)
            &&& !idn_err && !count_err && domain_err ==> (res matches Err(
                SanitizerError::DangerousDomain(h),
            ) && url_host(target@) == Some(h@))
            &&& !idn_err && !count_err && !domain_err ==> res is Ok
        }),
{
    match url_idn_check(target, written) {
        Some(original) => {
            let noop = |r: &R| {};
            match idn.handle_with(logger, noop, SanitizerError::Idn(original)) {
                Err(e) => return Err(e),
                Ok(_) => {},
            }
        },
        None => {},
    }
    if previous > 0 && previous - 1 == max_redirects.value {
        match max_redirects.handle(logger, SanitizerError::TooManyRedirects(max_redirects.value)) {
            Err(e) => return Err(e),
            Ok(()) => {},
        }
    }
    match dangerous_host(target, rules) {
        Some(h) => dangerous_level.handle(logger, SanitizerError::DangerousDomain(h)),
        None => Ok(()),
    }
}

} // verus!
