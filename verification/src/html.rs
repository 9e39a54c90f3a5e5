use vstd::prelude::*;

use base64::Engine;
use sha2::{Digest, Sha256};
use unicode_normalization::UnicodeNormalization;

use crate::resources::{generate_local_filename, local_filename};
use crate::text::{
    after_last, before_first, before_first_chars, after_last_chars, chars_at_str, chars_contains_str,
    ascii_lowercase, chars_of, is_ascii_text, is_ws, lemma_trim_ascii, lemma_trim_start_skip, seq_at, seq_contains, slice_chars, string_of,
    to_lowercase, trim_chars, trim_seq, unicode_lowercase,
};
use crate::url::{
    check_domain, check_domain_spec, host_matches, joined_url, url_host, url_with_host, Host,
    RuleMatch, Url,
};

verus! {

/// The Unicode Normalization Form C of `s` (`UnicodeNormalization::nfc`).
pub uninterp spec fn nfc_normalized(s: Seq<char>) -> Seq<char>;

/// The SHA-256 digest of the UTF-8 encoding of `text` (`sha2::Sha256`).
pub uninterp spec fn sha256_of_utf8(text: Seq<char>) -> Seq<u8>;

/// The character of a six-bit value in the standard base64 alphabet.
pub open spec fn base64_digit(v: int) -> char {
    if v < 26 {
        (65 + v) as char
    } else if v < 52 {
        (97 + v - 26) as char
    } else if v < 62 {
        (48 + v - 52) as char
    } else if v == 62 {
        '+'
    } else {
        '/'
    }
}

/// The standard, padded base64 encoding of `bytes` (RFC 4648, as
/// `base64::prelude::BASE64_STANDARD` writes it): each group of three bytes gives four
/// characters, and a last group of one or two bytes is padded with `=`.
pub open spec fn base64_standard(bytes: Seq<u8>) -> Seq<char>
    decreases bytes.len(),
{
    if bytes.len() == 0 {
        Seq::empty()
    } else if bytes.len() == 1 {
        let n = bytes[0] as int * 65536;
        seq![base64_digit(n / 262144), base64_digit(n / 4096 % 64), '=', '=']
    } else if bytes.len() == 2 {
        let n = bytes[0] as int * 65536 + bytes[1] as int * 256;
        seq![base64_digit(n / 262144), base64_digit(n / 4096 % 64), base64_digit(n / 64 % 64), '=']
    } else {
        let n = bytes[0] as int * 65536 + bytes[1] as int * 256 + bytes[2] as int;
        seq![
            base64_digit(n / 262144),
            base64_digit(n / 4096 % 64),
            base64_digit(n / 64 % 64),
            base64_digit(n % 64),
        ] + base64_standard(bytes.subrange(3, bytes.len() as int))
    }
}

/// Calls `UnicodeNormalization::nfc` on `s` and collects the result.
#[verifier::external_body]
fn nfc(s: &str) -> (res: String)
    ensures
        res@ == nfc_normalized(s@),
{
    s.nfc().collect::<String>()
}

/// Calls `sha2::Sha256` (`new`, `update`, `finalize`) on the UTF-8 bytes of `text`; a SHA-256
/// digest is 32 bytes long.
#[verifier::external_body]
fn sha256_digest(text: &str) -> (res: Vec<u8>)
    ensures
        res@ == sha256_of_utf8(text@),
        res@.len() == 32,
{
    let mut hasher = Sha256::new();
    hasher.update(text.as_bytes());
    hasher.finalize().to_vec()
}

/// Calls `Engine::encode` of `base64::prelude::BASE64_STANDARD` on `bytes`.
#[verifier::external_body]
fn base64_encode(bytes: &Vec<u8>) -> (res: String)
    ensures
        res@ == base64_standard(bytes@),
{
    base64::prelude::BASE64_STANDARD.encode(bytes)
}

/// The texts of a sequence of strings.
pub open spec fn string_views(v: Seq<String>) -> Seq<Seq<char>> {
    v.map_values(|s: String| s@)
}

/// The texts of a sequence of pairs of strings.
pub open spec fn string_pair_views(v: Seq<(String, String)>) -> Seq<(Seq<char>, Seq<char>)> {
    v.map_values(|p: (String, String)| (p.0@, p.1@))
}

/*================== ATTRIBUTES ===================*/

/// An attribute name declares an event handler when its lowercase form begins with `on`.
pub open spec fn is_event_handler_name(name: Seq<char>) -> bool {
    seq_at(unicode_lowercase(name), 0, "on"@)
}

/// Whether the attribute `name` declares an event handler (`onclick`, `ONLOAD`, ...).
pub fn is_event_handler(name: &str) -> (res: bool)
    ensures
        res == is_event_handler_name(name@),
        is_ascii_text(name@) ==> res == seq_at(ascii_lowercase(name@), 0, "on"@),
{
    let lower = to_lowercase(name);
    let l = chars_of(lower.as_str());
    chars_at_str(&l, 0, "on")
}

/// The event-handler names among `names`, in their order.
pub open spec fn event_handlers_of(names: Seq<Seq<char>>) -> Seq<Seq<char>>
    decreases names.len(),
{
    if names.len() == 0 {
        Seq::empty()
    } else {
        let rest = event_handlers_of(names.drop_last());
        if is_event_handler_name(names.last()) {
            rest.push(names.last())
        } else {
            rest
        }
    }
}

/// The names among an element's attribute `names` that declare event handlers, in order.
pub fn event_handler_attributes(names: &Vec<String>) -> (res: Vec<String>)
    ensures
        string_views(res@) == event_handlers_of(string_views(names@)),
{
    let mut out: Vec<String> = Vec::new();
    let mut i: usize = 0;
    while i < names.len()
        invariant
            i <= names@.len(),
            string_views(out@) == event_handlers_of(string_views(names@).take(i as int)),
        decreases names.len() - i,
    {
        let ghost prev = string_views(names@).take(i as int);
        let ghost before = string_views(out@);
        if is_event_handler(names[i].as_str()) {
            out.push(names[i].clone());
            assert(string_views(out@) =~= before.push(names@[i as int]@));
        }
        assert(string_views(names@).take(i + 1).drop_last() =~= prev);
        i = i + 1;
    }
    assert(string_views(names@).take(names@.len() as int) =~= string_views(names@));
    out
}

/// The value of an attribute as it is compared: trimmed, then lowercased.
pub open spec fn lowered_value(value: Seq<char>) -> Seq<char> {
    unicode_lowercase(trim_seq(value))
}

/// A lowered attribute value is a dangerous URI when it begins with `javascript:` or `data:`.
pub open spec fn is_dangerous_uri(lowered: Seq<char>) -> bool {
    seq_at(lowered, 0, "javascript:"@) || seq_at(lowered, 0, "data:"@)
}

/// The lowered form of an attribute `value` when it is a dangerous URI; otherwise `None`.
pub fn dangerous_uri(value: &str) -> (res: Option<String>)
    ensures
        match res {
            Some(l) => l@ == lowered_value(value@) && is_dangerous_uri(l@),
            None => !is_dangerous_uri(lowered_value(value@)),
        },
        is_ascii_text(value@) ==> lowered_value(value@) == ascii_lowercase(trim_seq(value@)),
{
    proof {
        if is_ascii_text(value@) {
            lemma_trim_ascii(value@);
        }
    }
    let v = chars_of(value);
    let t = trim_chars(&v);
    let trimmed = string_of(&t);
    let lower = to_lowercase(trimmed.as_str());
    let l = chars_of(lower.as_str());
    if chars_at_str(&l, 0, "javascript:") || chars_at_str(&l, 0, "data:") {
        Some(lower)
    } else {
        None
    }
}

/// Whitespace before a value does not hide a dangerous URI: a value and the same value after
/// leading whitespace are lowered alike.
pub proof fn lemma_leading_whitespace_ignored(ws: Seq<char>, value: Seq<char>)
    requires
        forall|j: int| 0 <= j < ws.len() ==> is_ws(#[trigger] ws[j]),
    ensures
        lowered_value(ws + value) == lowered_value(value),
        is_dangerous_uri(lowered_value(ws + value)) == is_dangerous_uri(lowered_value(value)),
{
    let s = ws + value;
    assert forall|j: int| 0 <= j < ws.len() implies is_ws(s[j]) by {
        assert(s[j] == ws[j]);
    }
    lemma_trim_start_skip(s, ws.len() as int);
    assert(s.subrange(ws.len() as int, s.len() as int) =~= value);
}

/// The attributes among `attrs` (name, value) whose value is a dangerous URI, each with its
/// lowered value, in order.
pub open spec fn dangerous_uris_of(attrs: Seq<(Seq<char>, Seq<char>)>) -> Seq<(Seq<char>, Seq<char>)>
    decreases attrs.len(),
{
    if attrs.len() == 0 {
        Seq::empty()
    } else {
        let rest = dangerous_uris_of(attrs.drop_last());
        let (name, value) = attrs.last();
        if is_dangerous_uri(lowered_value(value)) {
            rest.push((name, lowered_value(value)))
        } else {
            rest
        }
    }
}

/// The attributes of an element (name, value) that hold a dangerous URI, each with its lowered
/// value, in order.
pub fn dangerous_uri_attributes(attrs: &Vec<(String, String)>) -> (res: Vec<(String, String)>)
    ensures
        string_pair_views(res@) == dangerous_uris_of(string_pair_views(attrs@)),
{
    let mut out: Vec<(String, String)> = Vec::new();
    let mut i: usize = 0;
    while i < attrs.len()
        invariant
            i <= attrs@.len(),
            string_pair_views(out@) == dangerous_uris_of(string_pair_views(attrs@).take(i as int)),
        decreases attrs.len() - i,
    {
        let ghost prev = string_pair_views(attrs@).take(i as int);
        let ghost before = string_pair_views(out@);
        let (name, value) = &attrs[i];
        match dangerous_uri(value.as_str()) {
            Some(lowered) => {
                let ghost lv = lowered@;
                out.push((name.clone(), lowered));
                assert(string_pair_views(out@) =~= before.push((name@, lv)));
            },
            None => {},
        }
        assert(string_pair_views(attrs@).take(i + 1).drop_last() =~= prev);
        i = i + 1;
    }
    assert(string_pair_views(attrs@).take(attrs@.len() as int) =~= string_pair_views(attrs@));
    out
}

/*================== LINKS ===================*/

/// A character of a URL scheme: an ASCII letter or digit, `+`, `-` or `.`.
pub open spec fn is_scheme_char(c: char) -> bool {
    ('a' <= c && c <= 'z') || ('A' <= c && c <= 'Z') || ('0' <= c && c <= '9') || c == '+' || c
        == '-' || c == '.'
}

/// `s` without the C0 controls and spaces that a URL parser skips at its start.
pub open spec fn skip_controls(s: Seq<char>) -> Seq<char>
    decreases s.len(),
{
    if s.len() > 0 && s[0] <= ' ' {
        skip_controls(s.drop_first())
    } else {
        s
    }
}

/// Where the authority of a URL written as `s` begins: after a leading `//`, or after
/// `scheme://`; `None` when `s` names no authority (a relative reference).
pub open spec fn authority_start(s: Seq<char>) -> Option<int> {
    if seq_at(s, 0, "//"@) {
        Some(2)
    } else {
        let scheme = before_first(s, ':');
        if 0 < scheme.len() < s.len() && (forall|j: int|
            0 <= j < scheme.len() ==> is_scheme_char(#[trigger] scheme[j])) && seq_at(
            s,
            scheme.len() + 1 as int,
            "//"@,
        ) {
            Some(scheme.len() + 3 as int)
        } else {
            None
        }
    }
}

/// A character that ends the authority of a URL.
pub open spec fn is_authority_end(c: char) -> bool {
    c == '/' || c == '?' || c == '#' || c == '\\'
}

/// The length of the authority at the start of `s`.
pub open spec fn authority_len(s: Seq<char>) -> nat
    decreases s.len(),
{
    if s.len() == 0 || is_authority_end(s[0]) {
        0
    } else {
        1 + authority_len(s.drop_first())
    }
}

/// The host of a link as written in `value`: the authority without user information and port.
pub open spec fn written_host(value: Seq<char>) -> Option<Seq<char>> {
    let s = skip_controls(value);
    match authority_start(s) {
        None => None,
        Some(k) => {
            let rest = s.subrange(k, s.len() as int);
            let auth = rest.take(authority_len(rest) as int);
            let host_port = match after_last(auth, '@') {
                Some(h) => h,
                None => auth,
            };
            Some(before_first(host_port, ':'))
        },
    }
}

proof fn lemma_skip_controls(s: Seq<char>, a: int)
    requires
        0 <= a <= s.len(),
        forall|j: int| 0 <= j < a ==> s[j] <= ' ',
        a < s.len() ==> s[a] > ' ',
    ensures
        skip_controls(s) == s.subrange(a, s.len() as int),
    decreases a,
{
    if a == 0 {
        assert(s.subrange(0, s.len() as int) =~= s);
    } else {
        let t = s.drop_first();
        assert forall|j: int| 0 <= j < a - 1 implies t[j] <= ' ' by {
            assert(t[j] == s[j + 1]);
        }
        lemma_skip_controls(t, a - 1);
        assert(t.subrange(a - 1, t.len() as int) =~= s.subrange(a, s.len() as int));
    }
}

proof fn lemma_authority_len(s: Seq<char>, i: int)
    requires
        0 <= i <= s.len(),
        forall|j: int| 0 <= j < i ==> !is_authority_end(#[trigger] s[j]),
        i < s.len() ==> is_authority_end(s[i]),
    ensures
        authority_len(s) == i,
    decreases i,
{
    if i > 0 {
        let t = s.drop_first();
        assert forall|j: int| 0 <= j < i - 1 implies !is_authority_end(#[trigger] t[j]) by {
            assert(t[j] == s[j + 1]);
        }
        lemma_authority_len(t, i - 1);
    }
}

fn authority_start_of(s: &Vec<char>) -> (res: Option<usize>)
    ensures
        match res {
            Some(k) => authority_start(s@) == Some(k as int) && k <= s@.len(),
            None => authority_start(s@) is None,
        },
{
    proof {
        reveal_strlit("//");
    }
    if chars_at_str(s, 0, "//") {
        return Some(2);
    }
    let scheme = before_first_chars(s, ':');
    let n = scheme.len();
    if n == 0 || n >= s.len() {
        return None;
    }
    let mut j: usize = 0;
    while j < n
        invariant
            n == scheme@.len(),
            scheme@ == before_first(s@, ':'),
            0 < n < s@.len(),
            !seq_at(s@, 0, "//"@),
            j <= n,
            forall|m: int| 0 <= m < j ==> is_scheme_char(#[trigger] scheme@[m]),
        decreases n - j,
    {
        let c = scheme[j];
        if !(('a' <= c && c <= 'z') || ('A' <= c && c <= 'Z') || ('0' <= c && c <= '9') || c == '+'
            || c == '-' || c == '.') {
            assert(!is_scheme_char(scheme@[j as int]));
            return None;
        }
        j = j + 1;
    }
    if chars_at_str(s, n + 1, "//") {
        Some(n + 3)
    } else {
        None
    }
}

/// The host of a link as written in `value`, when `value` names an authority.
pub fn written_host_of(value: &str) -> (res: Option<Vec<char>>)
    ensures
        match res {
            Some(h) => written_host(value@) == Some(h@),
            None => written_host(value@) is None,
        },
{
    let v = chars_of(value);
    let n = v.len();
    let mut a: usize = 0;
    while a < n && v[a] <= ' '
        invariant
            n == v@.len(),
            a <= n,
            forall|j: int| 0 <= j < a ==> v@[j] <= ' ',
        decreases n - a,
    {
        a = a + 1;
    }
    proof {
        lemma_skip_controls(v@, a as int);
    }
    let s = slice_chars(&v, a, n);
    let k = match authority_start_of(&s) {
        Some(k) => k,
        None => return None,
    };
    let m = s.len();
    let rest = slice_chars(&s, k, m);
    let r = rest.len();
    let mut e: usize = 0;
    while e < r && !(rest[e] == '/' || rest[e] == '?' || rest[e] == '#' || rest[e] == '\\')
        invariant
            r == rest@.len(),
            e <= r,
            forall|j: int| 0 <= j < e ==> !is_authority_end(#[trigger] rest@[j]),
        decreases r - e,
    {
        e = e + 1;
    }
    proof {
        lemma_authority_len(rest@, e as int);
        assert(rest@.take(e as int) =~= rest@.subrange(0, e as int));
    }
    let auth = slice_chars(&rest, 0, e);
    let host_port = match after_last_chars(&auth, '@') {
        Some(h) => h,
        None => auth,
    };
    Some(before_first_chars(&host_port, ':'))
}

/// The IDN finding for a link whose parsed host is `host` and whose written text is `value`: the
/// written host, highlighted where it differs, when it is a domain name that the parsed host does
/// not show as written.
pub open spec fn idn_finding(host: Seq<char>, value: Seq<char>) -> Option<Seq<char>> {
    if is_ip_host(host) {
        None
    } else {
        match written_host(value) {
            Some(w) => check_domain_spec(host, w),
            None => None,
        }
    }
}

/// A parsed host is an IP address, not a domain name: an IPv6 address in brackets, or an IPv4
/// address, which the parser writes with digits and dots only.
pub open spec fn is_ip_host(host: Seq<char>) -> bool {
    host.len() > 0 && (host[0] == '[' || forall|i: int|
        0 <= i < host.len() ==> ('0' <= #[trigger] host[i] <= '9' || host[i] == '.'))
}

fn ip_host(host: &Vec<char>) -> (res: bool)
    ensures
        res == is_ip_host(host@),
{
    if host.len() == 0 {
        return false;
    }
    if host[0] == '[' {
        return true;
    }
    let mut i: usize = 0;
    while i < host.len()
        invariant
            i <= host@.len(),
            host@.len() > 0,
            host@[0] != '[',
            forall|j: int| 0 <= j < i ==> ('0' <= #[trigger] host@[j] <= '9' || host@[j] == '.'),
        decreases host.len() - i,
    {
        let c = host[i];
        if !(('0' <= c && c <= '9') || c == '.') {
            assert(!('0' <= host@[i as int] <= '9' || host@[i as int] == '.'));
            return false;
        }
        i = i + 1;
    }
    true
}

/// The IDN finding for a URL with host `host`, written as `written`.
pub fn idn_check(host: &Host, written: &str) -> (res: Option<String>)
    ensures
        match idn_finding(host@, written@) {
            None => res is None,
            Some(f) => res matches Some(o) && o@ == f,
        },
{
    let h = chars_of(host.as_str());
    if ip_host(&h) {
        return None;
    }
    match written_host_of(written) {
        Some(w) => {
            let text = string_of(&w);
            check_domain(host.as_str(), text.as_str())
        },
        None => None,
    }
}

/// A link whose host is written just as it is parsed (plain lowercase ASCII) gives no IDN
/// finding.
pub proof fn lemma_plain_host_no_idn(host: Seq<char>, value: Seq<char>)
    requires
        written_host(value) == Some(host),
    ensures
        idn_finding(host, value) is None,
{
}

/// Whether `host` is one of the dangerous-domain `rules` or a subdomain of one
/// (`host.matches(rule)`, as for the documents and redirects that are fetched).
pub open spec fn rule_matches_any(rules: Seq<Host>, host: Seq<char>) -> bool {
    exists|i: int| 0 <= i < rules.len() && host_matches(host, #[trigger] rules[i]@)
}

/// What the inspection of a link attribute found.
pub struct LinkInspection {
    /// The link resolved against the document's base.
    pub resolved: Url,
    /// The highlighted host as written, when it is an internationalized or altered domain name.
    pub idn: Option<String>,
    /// The host, when a dangerous-domain rule matches it.
    pub dangerous: Option<Host>,
}

/// Inspects the URL `value` of a link attribute: normalizes it to NFC, resolves it against
/// `base`, and checks its host for an IDN finding and for the dangerous-domain `rules`.
/// `None` when the value does not resolve to a URL.
#[verifier::loop_isolation(false)]
pub fn inspect_link(value: &str, base: &Url, rules: &Vec<Host>) -> (res: Option<LinkInspection>)
    ensures
        ({
            let v = nfc_normalized(value@);
            match joined_url(base@, v) {
                None => res is None,
                Some(u) => res matches Some(r) && r.resolved@ == u && match url_host(u) {
                    None => r.idn is None && r.dangerous is None,
                    Some(h) => (match idn_finding(h, v) {
                        None => r.idn is None,
                        Some(f) => r.idn matches Some(o) && o@ == f,
                    }) && (match r.dangerous {
                        Some(d) => d@ == h && rule_matches_any(rules@, h),
                        None => !rule_matches_any(rules@, h),
                    }),
                },
            }
        }),
{
    let normalized = nfc(value);
    let resolved = match base.join(normalized.as_str()) {
        Some(u) => u,
        None => return None,
    };
    let host = match resolved.host() {
        Some(h) => h,
        None => return Some(LinkInspection { resolved, idn: None, dangerous: None }),
    };
    let idn = idn_check(&host, normalized.as_str());
    let mut i: usize = 0;
    while i < rules.len()
        invariant
            i <= rules@.len(),
            forall|j: int| 0 <= j < i ==> !host_matches(host@, #[trigger] rules@[j]@),
        decreases rules.len() - i,
    {
        if host.matches(&rules[i]) {
            assert(host_matches(host@, rules@[i as int]@));
            return Some(LinkInspection { resolved, idn, dangerous: Some(host) });
        }
        i = i + 1;
    }
    Some(LinkInspection { resolved, idn, dangerous: None })
}

/// The attribute value that replaces a link to a dangerous domain, and the link as it then
/// stands: the link with its host set to `replacement` when that is accepted as a host;
/// otherwise `replacement` itself, the link unchanged (`None`).
pub fn dangerous_link_replacement(resolved: &Url, replacement: &str) -> (res: (String, Option<Url>))
    ensures
        match url_with_host(resolved@, replacement@) {
            Some(u) => res.0@ == u && (res.1 matches Some(n) && n@ == u),
            None => res.0@ == replacement@ && res.1 is None,
        },
{
    match resolved.with_host(replacement) {
        Some(u) => {
            let text = u.as_str().to_owned();
            (text, Some(u))
        },
        None => (replacement.to_owned(), None),
    }
}

/// A script source is allowed when the URL has a host and an entry of the allow list is that
/// host, or a prefix of the URL.
pub open spec fn script_source_allowed(allow: Seq<Seq<char>>, url: Seq<char>) -> bool {
    match url_host(url) {
        None => false,
        Some(h) => exists|i: int|
            0 <= i < allow.len() && (#[trigger] allow[i] == h || seq_at(url, 0, allow[i])),
    }
}

/// Whether the script at `resolved` may stay, by the allow list `allow_scripts`.
pub fn script_allowed(allow_scripts: &Vec<String>, resolved: &Url) -> (res: bool)
    ensures
        res == script_source_allowed(string_views(allow_scripts@), resolved@),
{
    let host = match resolved.host() {
        Some(h) => h,
        None => return false,
    };
    let h = chars_of(host.as_str());
    let u = chars_of(resolved.as_str());
    let ghost allow = string_views(allow_scripts@);
    let mut i: usize = 0;
    while i < allow_scripts.len()
        invariant
            i <= allow_scripts@.len(),
            allow == string_views(allow_scripts@),
            h@ == host@,
            u@ == resolved@,
            url_host(resolved@) == Some(host@),
            forall|j: int| 0 <= j < i ==> !(#[trigger] allow[j] == h@ || seq_at(u@, 0, allow[j])),
        decreases allow_scripts.len() - i,
    {
        let a = chars_of(allow_scripts[i].as_str());
        assert(allow[i as int] == a@);
        if crate::text::chars_eq(&a, &h) || crate::text::chars_at(&u, 0, &a) {
            return true;
        }
        i = i + 1;
    }
    false
}

/// The CSP source expression of an inline script: `sha256-` and the base64 of the SHA-256
/// digest of its text.
pub open spec fn csp_hash(script: Seq<char>) -> Seq<char> {
    "sha256-"@ + base64_standard(sha256_of_utf8(script))
}

/// The CSP hash source of the inline script `script`.
pub fn inline_script_hash(script: &str) -> (res: String)
    ensures
        res@ == csp_hash(script@),
{
    let digest = sha256_digest(script);
    let b64 = base64_encode(&digest);
    let mut out = chars_of("sha256-");
    let b = chars_of(b64.as_str());
    crate::text::push_chars(&mut out, &b);
    string_of(&out)
}

/// Whether the inline script `script` may stay: its CSP hash is on the allow list.
pub fn inline_script_allowed(allow_scripts: &Vec<String>, script: &str) -> (res: bool)
    ensures
        res == string_views(allow_scripts@).contains(csp_hash(script@)),
{
    let hash = inline_script_hash(script);
    let ghost allow = string_views(allow_scripts@);
    let mut i: usize = 0;
    while i < allow_scripts.len()
        invariant
            i <= allow_scripts@.len(),
            allow == string_views(allow_scripts@),
            hash@ == csp_hash(script@),
            forall|j: int| 0 <= j < i ==> #[trigger] allow[j] != hash@,
        decreases allow_scripts.len() - i,
    {
        if allow_scripts[i] == hash {
            assert(allow[i as int] == hash@);
            return true;
        }
        i = i + 1;
    }
    false
}

/*================== ELEMENTS ===================*/

/// A `link` element loads a stylesheet when its `rel`, lowercased, contains `stylesheet`.
pub open spec fn is_stylesheet_rel(rel: Seq<char>) -> bool {
    seq_contains(unicode_lowercase(rel), "stylesheet"@)
}

/// Whether a `link` element with the `rel` attribute `rel` (empty when absent) loads a stylesheet.
pub fn is_stylesheet_link(rel: &str) -> (res: bool)
    ensures
        res == is_stylesheet_rel(rel@),
        is_ascii_text(rel@) ==> res == seq_contains(ascii_lowercase(rel@), "stylesheet"@),
{
    let lower = to_lowercase(rel);
    let l = chars_of(lower.as_str());
    chars_contains_str(&l, "stylesheet")
}

/// The attribute that holds the URL of an element with tag `tag`, for the elements whose links
/// are inspected.
pub open spec fn link_attribute_of(tag: Seq<char>) -> Option<Seq<char>> {
    if tag == "base"@ || tag == "a"@ || tag == "link"@ || tag == "image"@ {
        Some("href"@)
    } else if tag == "img"@ || tag == "source"@ || tag == "script"@ {
        Some("src"@)
    } else {
        None
    }
}

/// The attribute that holds the URL of an element with tag `tag`, if its links are inspected.
pub fn link_attribute(tag: &str) -> (res: Option<&'static str>)
    ensures
        match res {
            Some(a) => link_attribute_of(tag@) == Some(a@),
            None => link_attribute_of(tag@) is None,
        },
{
    let t = chars_of(tag);
    if crate::text::chars_eq_str(&t, "base") || crate::text::chars_eq_str(&t, "a")
        || crate::text::chars_eq_str(&t, "link") || crate::text::chars_eq_str(&t, "image") {
        Some("href")
    } else if crate::text::chars_eq_str(&t, "img") || crate::text::chars_eq_str(&t, "source")
        || crate::text::chars_eq_str(&t, "script") {
        Some("src")
    } else {
        None
    }
}

/// The extension that the local copy of a resource loaded by an element with tag `tag` gets by
/// default: `css` for a stylesheet `link`, `png` for `img` and `image`, `js` for `source` and
/// `script`.
pub open spec fn subresource_extension_of(tag: Seq<char>) -> Option<Seq<char>> {
    if tag == "link"@ {
        Some("css"@)
    } else if tag == "img"@ || tag == "image"@ {
        Some("png"@)
    } else if tag == "source"@ || tag == "script"@ {
        Some("js"@)
    } else {
        None
    }
}

/// The default extension of the local copy of a resource loaded by an element with tag `tag`.
pub fn subresource_extension(tag: &str) -> (res: Option<&'static str>)
    ensures
        match res {
            Some(e) => subresource_extension_of(tag@) == Some(e@),
            None => subresource_extension_of(tag@) is None,
        },
{
    let t = chars_of(tag);
    if crate::text::chars_eq_str(&t, "link") {
        Some("css")
    } else if crate::text::chars_eq_str(&t, "img") || crate::text::chars_eq_str(&t, "image") {
        Some("png")
    } else if crate::text::chars_eq_str(&t, "source") || crate::text::chars_eq_str(&t, "script") {
        Some("js")
    } else {
        None
    }
}

/// What an element with a link is checked for and what becomes of its resource.
#[derive(Debug, Clone, Copy, PartialEq, Eq)]
pub enum ElementAction {
    /// `<base href>`: the base becomes the value resolved against it.
    SetBase,
    /// `<script src>`: the source is checked as a link, then kept only when the allow list
    /// admits it (and fetched when sub-resources are), else the element is removed; a source
    /// that does not resolve removes the element too.
    Script,
    /// The URL in `attr` is checked as a link; with `fetch_ext`, its resource is fetched under a
    /// local name with that extension when sub-resources are fetched.
    CheckLink { attr: &'static str, fetch_ext: Option<&'static str> },
    /// The element carries no link that is checked.
    Ignore,
}

/// What becomes of an element with tag `tag` and `rel` attribute `rel` (empty when absent): the
/// base and script elements are handled as such; other elements with a link attribute have it
/// checked, and their resource fetched by its default extension, except a `link` that is not a
/// stylesheet, which is only checked.
pub fn element_action(tag: &str, rel: &str) -> (res: ElementAction)
    ensures
        tag@ == "base"@ ==> res == ElementAction::SetBase,
        tag@ == "script"@ ==> res == ElementAction::Script,
        tag@ != "base"@ && tag@ != "script"@ ==> match link_attribute_of(tag@) {
            None => res == ElementAction::Ignore,
            Some(a) => res matches ElementAction::CheckLink { attr, fetch_ext } && attr@ == a && (
            if tag@ == "link"@ && !is_stylesheet_rel(rel@) {
                fetch_ext is None
            } else {
                match subresource_extension_of(tag@) {
                    Some(e) => fetch_ext matches Some(f) && f@ == e,
                    None => fetch_ext is None,
                }
            }),
        },
{
    proof {
        reveal_strlit("base");
        reveal_strlit("script");
        assert("base"@.len() != "script"@.len());
    }
    let t = chars_of(tag);
    if crate::text::chars_eq_str(&t, "base") {
        return ElementAction::SetBase;
    }
    if crate::text::chars_eq_str(&t, "script") {
        return ElementAction::Script;
    }
    let attr = match link_attribute(tag) {
        Some(a) => a,
        None => return ElementAction::Ignore,
    };
    if crate::text::chars_eq_str(&t, "link") && !is_stylesheet_link(rel) {
        return ElementAction::CheckLink { attr, fetch_ext: None };
    }
    ElementAction::CheckLink { attr, fetch_ext: subresource_extension(tag) }
}

/// How an attribute takes a replacement value.
#[derive(Debug, Clone, PartialEq, Eq)]
pub enum AttributeEdit {
    /// The attribute is removed.
    Remove,
    /// The attribute is set to the value.
    Assign(String),
}

/// How an attribute takes the replacement `value`: an empty value removes it, any other is set.
pub fn attribute_edit(value: &str) -> (res: AttributeEdit)
    ensures
        value@.len() == 0 ==> res == AttributeEdit::Remove,
        value@.len() > 0 ==> (res matches AttributeEdit::Assign(v) && v@ == value@),
{
    let v = chars_of(value);
    if v.len() == 0 {
        AttributeEdit::Remove
    } else {
        AttributeEdit::Assign(value.to_owned())
    }
}

/// The state of a crawl through one HTML document.
pub struct CrawlerState {
    /// The base URL of the document
    pub base: Url,
    /// The resources discovered in the document
    pub subresources: Vec<(Url, String)>,
}

impl CrawlerState {
    /// A crawl of a document at `base` that has discovered nothing yet.
    pub fn new(base: Url) -> (res: Self)
        ensures
            res.base == base,
            res.subresources@.len() == 0,
    {
        CrawlerState { base, subresources: Vec::new() }
    }

    /// Applies a `<base href>`: the base becomes `href` resolved against it, when it resolves.
    pub fn set_base(&mut self, href: &str)
        ensures
            match joined_url(old(self).base@, href@) {
                Some(u) => final(self).base@ == u,
                None => final(self).base == old(self).base,
            },
            final(self).subresources == old(self).subresources,
    {
        match self.base.join(href) {
            Some(u) => {
                self.base = u;
            },
            None => {},
        }
    }

    /// Records the resource at `resolved` for fetching, under a local name with the default
    /// extension `ext`, and gives that name, which the document now refers to.
    pub fn add_subresource(&mut self, resolved: Url, ext: &str) -> (res: String)
        ensures
            res@ == local_filename(resolved@, ext@),
            final(self).base == old(self).base,
            final(self).subresources@.len() == old(self).subresources@.len() + 1,
            final(self).subresources@.drop_last() == old(self).subresources@,
            final(self).subresources@.last().0 == resolved,
            final(self).subresources@.last().1@ == res@,
    {
        let name = generate_local_filename(&resolved, ext);
        let copy = name.clone();
        self.subresources.push((resolved, copy));
        name
    }
}

} // verus!
