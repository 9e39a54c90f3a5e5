use vstd::prelude::*;

use crate::text::{
    before_first, before_first_chars, chars_eq, chars_of, push_chars, push_str, seq_at, string_of,
};

verus! {

/// The serialization of the URL that `url::Url::parse` makes of `input`, if it parses.
pub uninterp spec fn parsed_url(input: Seq<char>) -> Option<Seq<char>>;

/// The serialization of `url::Url::join` of `input` onto the URL serialized as `base`, if it succeeds.
pub uninterp spec fn joined_url(base: Seq<char>, input: Seq<char>) -> Option<Seq<char>>;

/// The path component (`url::Url::path`) of the URL serialized as `url`.
pub uninterp spec fn url_path(url: Seq<char>) -> Seq<char>;

/// The host (`url::Url::host`, as text) of the URL serialized as `url`.
pub uninterp spec fn url_host(url: Seq<char>) -> Option<Seq<char>>;

/// The scheme (`url::Url::scheme`) of the URL serialized as `url`: a serialization begins with
/// the scheme and a `:`, and a scheme holds no `:`.
pub open spec fn url_scheme(url: Seq<char>) -> Seq<char> {
    before_first(url, ':')
}

/// The serialization after `url::Url::set_host(host)` on the URL serialized as `url`, if it succeeds.
pub uninterp spec fn url_with_host(url: Seq<char>, host: Seq<char>) -> Option<Seq<char>>;

/// The text of `url::Host::parse(input)`, if it parses.
pub uninterp spec fn parsed_host(input: Seq<char>) -> Option<Seq<char>>;

/// Calls `url::Url::parse` and keeps the serialization of the result.
#[verifier::external_body]
fn parse_url_text(input: &str) -> (res: Option<String>)
    ensures
        match res {
            Some(s) => parsed_url(input@) == Some(s@),
            None => parsed_url(input@) is None,
        },
{
    match ::url::Url::parse(input) {
        Ok(u) => Some(u.as_str().to_owned()),
        Err(_) => None,
    }
}

/// Calls `url::Url::join` on the URL serialized as `base` and keeps the serialization of the result.
#[verifier::external_body]
fn join_url_text(base: &str, input: &str) -> (res: Option<String>)
    ensures
        match res {
            Some(s) => joined_url(base@, input@) == Some(s@),
            None => joined_url(base@, input@) is None,
        },
{
    match ::url::Url::parse(base) {
        Ok(b) => match b.join(input) {
            Ok(u) => Some(u.as_str().to_owned()),
            Err(_) => None,
        },
        Err(_) => None,
    }
}

/// Calls `url::Url::path` on the URL serialized as `url`.
#[verifier::external_body]
fn url_path_text(url: &str) -> (res: String)
    ensures
        res@ == url_path(url@),
{
    match ::url::Url::parse(url) {
        Ok(u) => u.path().to_owned(),
        Err(_) => String::new(),
    }
}

/// Calls `url::Url::host` on the URL serialized as `url` and keeps the text of the host.
#[verifier::external_body]
fn url_host_text(url: &str) -> (res: Option<String>)
    ensures
        match res {
            Some(s) => url_host(url@) == Some(s@),
            None => url_host(url@) is None,
        },
{
    match ::url::Url::parse(url) {
        Ok(u) => match u.host() {
            Some(h) => Some(h.to_string()),
            None => None,
        },
        Err(_) => None,
    }
}

/// Calls `url::Url::set_host` on the URL serialized as `url` and keeps the new serialization.
#[verifier::external_body]
fn url_set_host_text(url: &str, host: &str) -> (res: Option<String>)
    ensures
        match res {
            Some(s) => url_with_host(url@, host@) == Some(s@),
            None => url_with_host(url@, host@) is None,
        },
{
    match ::url::Url::parse(url) {
        Ok(mut u) => match u.set_host(Some(host)) {
            Ok(()) => Some(u.as_str().to_owned()),
            Err(_) => None,
        },
        Err(_) => None,
    }
}

/// Calls `url::Host::parse` and keeps the text of the host.
#[verifier::external_body]
fn parse_host_text(input: &str) -> (res: Option<String>)
    ensures
        match res {
            Some(s) => parsed_host(input@) == Some(s@),
            None => parsed_host(input@) is None,
        },
{
    match ::url::Host::parse(input) {
        Ok(h) => Some(h.to_string()),
        Err(_) => None,
    }
}

/// A parsed URL, held as its serialization.
#[derive(Debug, Clone)]
pub struct Url {
    serialization: String,
}

impl View for Url {
    type V = Seq<char>;

    closed spec fn view(&self) -> Seq<char> {
        self.serialization@
    }
}

impl Url {
    /// Parses an absolute URL.
    pub fn parse(input: &str) -> (res: Option<Url>)
        ensures
            match res {
                Some(u) => parsed_url(input@) == Some(u@),
                None => parsed_url(input@) is None,
            },
    {
        match parse_url_text(input) {
            Some(s) => Some(Url { serialization: s }),
            None => None,
        }
    }

    /// Parses `input` as a URL relative to this one.
    pub fn join(&self, input: &str) -> (res: Option<Url>)
        ensures
            match res {
                Some(u) => joined_url(self@, input@) == Some(u@),
                None => joined_url(self@, input@) is None,
            },
    {
        match join_url_text(self.serialization.as_str(), input) {
            Some(s) => Some(Url { serialization: s }),
            None => None,
        }
    }

    /// The serialization of this URL.
    pub fn as_str(&self) -> (res: &str)
        ensures
            res@ == self@,
    {
        self.serialization.as_str()
    }

    /// The path of this URL.
    pub fn path(&self) -> (res: String)
        ensures
            res@ == url_path(self@),
    {
        url_path_text(self.serialization.as_str())
    }

    /// The scheme of this URL.
    pub fn scheme(&self) -> (res: String)
        ensures
            res@ == url_scheme(self@),
    {
        let v = chars_of(self.serialization.as_str());
        string_of(&before_first_chars(&v, ':'))
    }

    /// The host of this URL, if it has one.
    pub fn host(&self) -> (res: Option<Host>)
        ensures
            match res {
                Some(h) => url_host(self@) == Some(h@),
                None => url_host(self@) is None,
            },
    {
        match url_host_text(self.serialization.as_str()) {
            Some(s) => Some(Host { text: s }),
            None => None,
        }
    }

    /// This URL with its host replaced, if the host is acceptable.
    pub fn with_host(&self, host: &str) -> (res: Option<Url>)
        ensures
            match res {
                Some(u) => url_with_host(self@, host@) == Some(u@),
                None => url_with_host(self@, host@) is None,
            },
    {
        match url_set_host_text(self.serialization.as_str(), host) {
            Some(s) => Some(Url { serialization: s }),
            None => None,
        }
    }
}

/// The host of a URL, held as its text.
#[derive(Debug, Clone)]
pub struct Host {
    text: String,
}

impl View for Host {
    type V = Seq<char>;

    closed spec fn view(&self) -> Seq<char> {
        self.text@
    }
}

impl Host {
    /// Parses a host name or IP address.
    pub fn parse(input: &str) -> (res: Option<Host>)
        ensures
            match res {
                Some(h) => parsed_host(input@) == Some(h@),
                None => parsed_host(input@) is None,
            },
    {
        match parse_host_text(input) {
            Some(s) => Some(Host { text: s }),
            None => None,
        }
    }

    /// The text of this host.
    pub fn as_str(&self) -> (res: &str)
        ensures
            res@ == self@,
    {
        self.text.as_str()
    }
}


/// Matching a value against a rule of the policy.
pub trait RuleMatch: Sized {
    type RuleType;

    fn matches(&self, rule: &Self::RuleType) -> bool;
}

/// `host` is `rule` or a subdomain of it: the rule text is a suffix of the host text,
/// preceded by nothing or by a `.`.
pub open spec fn host_matches(host: Seq<char>, rule: Seq<char>) -> bool {
    &&& rule.len() <= host.len()
    &&& host.subrange(host.len() - rule.len(), host.len() as int) == rule
    &&& (host.len() == rule.len() || host[host.len() - rule.len() - 1] == '.')
}

impl RuleMatch for Host {
    type RuleType = Self;

    /// Whether this host is the rule's host or one of its subdomains.
    fn matches(&self, rule: &Self::RuleType) -> (res: bool)
        ensures
            res == host_matches(self@, rule@),
    {
        let target = chars_of(self.text.as_str());
        let r = chars_of(rule.text.as_str());
        if r.len() > target.len() {
            return false;
        }
        let tn = target.len();
        let start = tn - r.len();
        let mut k: usize = 0;
        while k < r.len()
            invariant
                tn == target@.len(),
                target@ == self@,
                r@ == rule@,
                start == target@.len() - r@.len(),
                k <= r@.len(),
                forall|j: int| 0 <= j < k ==> target@[start + j] == r@[j],
            decreases r.len() - k,
        {
            if target[start + k] != r[k] {
                assert(target@.subrange(start as int, target@.len() as int)[k as int] != r@[k as int]);
                return false;
            }
            k = k + 1;
        }
        assert(target@.subrange(start as int, target@.len() as int) =~= r@);
        start == 0 || target[start - 1] == '.'
    }
}

/// Every host matches itself.
pub proof fn lemma_host_matches_itself(h: Seq<char>)
    ensures
        host_matches(h, h),
{
    assert(h.subrange(0, h.len() as int) =~= h);
}

/// A host matches the rule of any domain it is a subdomain of: `label.rule` matches `rule`.
pub proof fn lemma_subdomain_matches(label: Seq<char>, rule: Seq<char>)
    ensures
        host_matches(label + seq!['.'] + rule, rule),
{
    let h = label + seq!['.'] + rule;
    assert(h.subrange(h.len() - rule.len(), h.len() as int) =~= rule);
    assert(h[h.len() - rule.len() - 1] == '.');
}

/// Matching is transitive: a subdomain of a subdomain of a rule matches the rule.
pub proof fn lemma_host_matches_transitive(a: Seq<char>, b: Seq<char>, c: Seq<char>)
    requires
        host_matches(a, b),
        host_matches(b, c),
    ensures
        host_matches(a, c),
{
    assert forall|j: int| 0 <= j < c.len() implies a.subrange(a.len() - c.len(), a.len() as int)[j] == c[j] by {
        assert(a[a.len() - b.len() + (b.len() - c.len() + j)] == b[b.len() - c.len() + j]);
    }
    assert(a.subrange(a.len() - c.len(), a.len() as int) =~= c);
    if a.len() != c.len() {
        if b.len() == c.len() {
        } else {
            assert(a[a.len() - b.len() + (b.len() - c.len() - 1)] == b[b.len() - c.len() - 1]);
        }
    }
}

/// The pieces of `s` between the occurrences of `c` (as `str::split`).
pub open spec fn split_seq(s: Seq<char>, c: char) -> Seq<Seq<char>>
    decreases s.len(),
{
    if s.len() == 0 {
        seq![seq![]]
    } else {
        let r = split_seq(s.drop_last(), c);
        if s.last() == c {
            r.push(seq![])
        } else {
            r.update(r.len() - 1, r.last().push(s.last()))
        }
    }
}

proof fn lemma_split_seq_nonempty(s: Seq<char>, c: char)
    ensures
        split_seq(s, c).len() >= 1,
    decreases s.len(),
{
    if s.len() > 0 {
        lemma_split_seq_nonempty(s.drop_last(), c);
    }
}

/// The pieces joined with `sep` between them.
pub open spec fn join_seq(ls: Seq<Seq<char>>, sep: Seq<char>) -> Seq<char>
    decreases ls.len(),
{
    if ls.len() == 0 {
        seq![]
    } else if ls.len() == 1 {
        ls[0]
    } else {
        join_seq(ls.drop_last(), sep) + sep + ls.last()
    }
}

/// ASCII lowercase of a character (`char::to_ascii_lowercase`).
pub open spec fn ascii_lower_char(c: char) -> char {
    if 'A' <= c && c <= 'Z' {
        ((c as u32 + 32) as u8) as char
    } else {
        c
    }
}

/// Marks an ASCII uppercase character (in magenta) in an original label that is not punycode.
pub open spec fn mark_uppercase(o: Seq<char>) -> Seq<char>
    decreases o.len(),
{
    if o.len() == 0 {
        seq![]
    } else {
        let c = o.last();
        let piece = if 'A' <= c && c <= 'Z' {
            "\x1b[95;1m"@ + seq![c] + "\x1b[0m"@
        } else {
            seq![c]
        };
        mark_uppercase(o.drop_last()) + piece
    }
}

/// Reads original characters until one that is `p` (kept as it is) or is `p` once lowercased
/// (marked magenta); the characters passed over are marked red. Gives the text and the
/// characters left.
pub open spec fn consume_for(os: Seq<char>, p: char) -> (Seq<char>, Seq<char>)
    decreases os.len(),
{
    if os.len() == 0 {
        (seq![], os)
    } else {
        let o = os[0];
        if o == p {
            (seq![o], os.drop_first())
        } else if ascii_lower_char(o) == p {
            ("\x1b[95;1m"@ + seq![o] + "\x1b[0m"@, os.drop_first())
        } else {
            let r = consume_for(os.drop_first(), p);
            ("\x1b[91;1m"@ + seq![o] + "\x1b[0m"@ + r.0, r.1)
        }
    }
}

/// The original label, read along the punycode characters `ps`.
pub open spec fn mark_punycode(ps: Seq<char>, os: Seq<char>) -> Seq<char>
    decreases ps.len(),
{
    if ps.len() == 0 {
        seq![]
    } else {
        let r = consume_for(os, ps[0]);
        r.0 + mark_punycode(ps.drop_first(), r.1)
    }
}

/// The highlighted form of one label: punycode labels (`xn--`) are compared with the original,
/// other labels have their uppercase letters marked.
pub open spec fn mark_label(parsed: Seq<char>, original: Seq<char>) -> Seq<char> {
    if seq_at(parsed, 0, "xn--"@) {
        mark_punycode(parsed.subrange(4, parsed.len() as int), original)
    } else {
        mark_uppercase(original)
    }
}

/// The highlighted form of a domain: its labels, paired with those of the original
/// (as far as both go), each marked by `mark_label`, joined with `.`.
pub open spec fn check_domain_spec(domain: Seq<char>, original: Seq<char>) -> Option<Seq<char>> {
    if domain == original {
        None
    } else {
        let d = split_seq(domain, '.');
        let o = split_seq(original, '.');
        let n = if d.len() <= o.len() { d.len() } else { o.len() };
        Some(join_seq(Seq::new(n, |k: int| mark_label(d[k], o[k])), "."@))
    }
}

/// The views of a vector of character vectors.
pub open spec fn views(v: Seq<Vec<char>>) -> Seq<Seq<char>> {
    v.map_values(|x: Vec<char>| x@)
}

fn split_chars(v: &Vec<char>, c: char) -> (res: Vec<Vec<char>>)
    ensures
        views(res@) == split_seq(v@, c),
{
    let mut pieces: Vec<Vec<char>> = Vec::new();
    let mut cur: Vec<char> = Vec::new();
    let mut k: usize = 0;
    assert(views(pieces@).push(cur@) =~= split_seq(v@.take(0), c));
    while k < v.len()
        invariant
            k <= v@.len(),
            views(pieces@).push(cur@) == split_seq(v@.take(k as int), c),
        decreases v.len() - k,
    {
        let ghost before = v@.take(k as int);
        assert(v@.take(k + 1).drop_last() =~= before);
        assert(v@.take(k + 1).last() == v@[k as int]);
        let ghost old_pieces = views(pieces@);
        let ghost old_cur = cur@;
        if v[k] == c {
            let done = cur;
            pieces.push(done);
            cur = Vec::new();
            assert(views(pieces@) =~= old_pieces.push(old_cur));
            assert(views(pieces@).push(cur@) =~= old_pieces.push(old_cur).push(seq![]));
        } else {
            cur.push(v[k]);
            assert(views(pieces@).push(cur@) =~= old_pieces.push(old_cur).update(
                old_pieces.len() as int,
                old_cur.push(v@[k as int]),
            ));
        }
        k = k + 1;
    }
    let ghost old_pieces = views(pieces@);
    let ghost old_cur = cur@;
    pieces.push(cur);
    assert(views(pieces@) =~= old_pieces.push(old_cur));
    assert(v@.take(v@.len() as int) =~= v@);
    pieces
}

fn join_chars(ls: &Vec<Vec<char>>, sep: &str) -> (res: Vec<char>)
    ensures
        res@ == join_seq(views(ls@), sep@),
{
    let mut out: Vec<char> = Vec::new();
    let mut k: usize = 0;
    while k < ls.len()
        invariant
            k <= ls@.len(),
            out@ == join_seq(views(ls@).take(k as int), sep@),
        decreases ls.len() - k,
    {
        let ghost pre = views(ls@).take(k as int);
        assert(views(ls@).take(k + 1).drop_last() =~= pre);
        assert(views(ls@).take(k + 1).last() == ls@[k as int]@);
        if k > 0 {
            push_str(&mut out, sep);
        } else {
            assert(out@ =~= Seq::<char>::empty());
        }
        push_chars(&mut out, &ls[k]);
        k = k + 1;
    }
    assert(views(ls@).take(ls@.len() as int) =~= views(ls@));
    out
}

fn mark_uppercase_chars(o: &Vec<char>, out: &mut Vec<char>)
    ensures
        final(out)@ == old(out)@ + mark_uppercase(o@),
{
    let mut k: usize = 0;
    while k < o.len()
        invariant
            k <= o@.len(),
            out@ == old(out)@ + mark_uppercase(o@.take(k as int)),
        decreases o.len() - k,
    {
        assert(o@.take(k + 1).drop_last() =~= o@.take(k as int));
        assert(o@.take(k + 1).last() == o@[k as int]);
        let c = o[k];
        let ghost before = out@;
        if 'A' <= c && c <= 'Z' {
            push_str(out, "\x1b[95;1m");
            out.push(c);
            push_str(out, "\x1b[0m");
        } else {
            out.push(c);
        }
        assert(out@ =~= old(out)@ + mark_uppercase(o@.take(k + 1)));
        k = k + 1;
    }
    assert(o@.take(o@.len() as int) =~= o@);
}

fn ascii_lower(c: char) -> (res: char)
    ensures
        res == ascii_lower_char(c),
{
    if 'A' <= c && c <= 'Z' {
        ((c as u8) + 32) as char
    } else {
        c
    }
}

fn mark_punycode_chars(ps: &Vec<char>, os: &Vec<char>, out: &mut Vec<char>)
    ensures
        final(out)@ == old(out)@ + mark_punycode(ps@, os@),
{
    let mut pi: usize = 0;
    let mut oi: usize = 0;
    assert(ps@.subrange(0, ps@.len() as int) =~= ps@);
    assert(os@.subrange(0, os@.len() as int) =~= os@);
    while pi < ps.len()
        invariant
            pi <= ps@.len(),
            oi <= os@.len(),
            old(out)@ + mark_punycode(ps@, os@) == out@ + mark_punycode(
                ps@.subrange(pi as int, ps@.len() as int),
                os@.subrange(oi as int, os@.len() as int),
            ),
        decreases ps.len() - pi,
    {
        let p = ps[pi];
        let ghost rest_p = ps@.subrange(pi as int, ps@.len() as int);
        let ghost start_out = out@;
        let ghost start_os = os@.subrange(oi as int, os@.len() as int);
        assert(rest_p.drop_first() =~= ps@.subrange(pi + 1, ps@.len() as int));
        // invariant of the inner walk: the piece written so far plus what is left to consume
        while oi < os.len()
            invariant_except_break
                oi <= os@.len(),
                start_out + consume_for(start_os, p).0 == out@ + consume_for(
                    os@.subrange(oi as int, os@.len() as int),
                    p,
                ).0,
                consume_for(start_os, p).1 == consume_for(os@.subrange(oi as int, os@.len() as int), p).1,
            ensures
                oi <= os@.len(),
                start_out + consume_for(start_os, p).0 == out@,
                consume_for(start_os, p).1 == os@.subrange(oi as int, os@.len() as int),
            decreases os.len() - oi,
        {
            let o = os[oi];
            let ghost cur = os@.subrange(oi as int, os@.len() as int);
            assert(cur[0] == o);
            assert(cur.drop_first() =~= os@.subrange(oi + 1, os@.len() as int));
            oi = oi + 1;
            if o == p {
                out.push(o);
                break;
            } else if ascii_lower(o) == p {
                push_str(out, "\x1b[95;1m");
                out.push(o);
                push_str(out, "\x1b[0m");
                break;
            } else {
                let ghost before = out@;
                push_str(out, "\x1b[91;1m");
                out.push(o);
                push_str(out, "\x1b[0m");
                assert(out@ =~= before + ("\x1b[91;1m"@ + seq![o] + "\x1b[0m"@));
            }
        }
        proof {
            if oi == os@.len() {
                assert(os@.subrange(oi as int, os@.len() as int) =~= Seq::<char>::empty());
            }
        }
        pi = pi + 1;
    }
    assert(ps@.subrange(pi as int, ps@.len() as int) =~= Seq::<char>::empty());
    assert(out@ + Seq::<char>::empty() =~= out@);
}

fn mark_label_chars(parsed: &Vec<char>, original: &Vec<char>) -> (res: Vec<char>)
    ensures
        res@ == mark_label(parsed@, original@),
{
    let mut out: Vec<char> = Vec::new();
    if crate::text::chars_at_str(parsed, 0, "xn--") {
        proof {
            reveal_strlit("xn--");
        }
        let rest = crate::text::slice_chars(parsed, 4, parsed.len());
        mark_punycode_chars(&rest, original, &mut out);
    } else {
        mark_uppercase_chars(original, &mut out);
    }
    assert(out@ =~= Seq::<char>::empty() + mark_label(parsed@, original@));
    out
}

/// Checks whether a domain was written with characters that its ASCII form (`domain`, with
/// punycode labels) does not show as written (`original`). When the two differ, gives the
/// original with the differing characters highlighted for the log; otherwise `None`.
pub fn check_domain(domain: &str, original: &str) -> (res: Option<String>)
    ensures
        match check_domain_spec(domain@, original@) {
            None => res is None,
            Some(h) => (res matches Some(r) && r@ == h),
        },
{
    let d = chars_of(domain);
    let o = chars_of(original);
    if chars_eq(&d, &o) {
        return None;
    }
    let dl = split_chars(&d, '.');
    let ol = split_chars(&o, '.');
    let n = if dl.len() <= ol.len() {
        dl.len()
    } else {
        ol.len()
    };
    let mut labels: Vec<Vec<char>> = Vec::new();
    let mut k: usize = 0;
    while k < n
        invariant
            k <= n,
            n <= dl@.len(),
            n <= ol@.len(),
            views(labels@) == Seq::new(k as nat, |j: int| mark_label(views(dl@)[j], views(ol@)[j])),
        decreases n - k,
    {
        let ghost before = views(labels@);
        let piece = mark_label_chars(&dl[k], &ol[k]);
        assert(views(dl@)[k as int] == dl@[k as int]@);
        assert(views(ol@)[k as int] == ol@[k as int]@);
        let ghost pv = piece@;
        labels.push(piece);
        assert(views(labels@) =~= before.push(pv));
        assert(views(labels@) =~= Seq::new((k + 1) as nat, |j: int| mark_label(views(dl@)[j], views(ol@)[j])));
        k = k + 1;
    }
    let joined = join_chars(&labels, ".");
    Some(string_of(&joined))
}

} // verus!
