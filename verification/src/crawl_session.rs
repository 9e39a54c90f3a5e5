use vstd::prelude::*;

use crate::errors::SanitizerError;
use crate::log::{Log, LogLevel};
use crate::resources::css::{css_run, pairs_view, replacement_view};
use crate::resources::javascript::js_scan;
use crate::resources::mime::{known_mime_name, KnownMime};
use crate::resources::{
    pdf_scan, scan_pdf_for_active_content, strip_jpeg_metadata, strip_jpeg_spec,
    strip_png_metadata, strip_png_spec,
};
use crate::rules::{JsReplace, RuleWithReplace};
use crate::text::{chars_ends_with_str, chars_eq_str, chars_of, seq_ends_with};
use crate::url::{parsed_url, url_path, url_scheme, Url};
use vstd::utf8::encode_utf8;

verus! {

/// The text that `String::from_utf8_lossy` makes of `bytes`.
pub uninterp spec fn utf8_lossy(bytes: Seq<u8>) -> Seq<char>;

/// Calls `String::from_utf8_lossy` and takes the result as an owned string.
#[verifier::external_body]
fn text_of_bytes(bytes: &[u8]) -> (res: String)
    ensures
        res@ == utf8_lossy(bytes@),
{
    String::from_utf8_lossy(bytes).into_owned()
}

/// The UTF-8 bytes of `s`.
fn bytes_of(s: &str) -> (res: Vec<u8>)
    ensures
        res@ == encode_utf8(s@),
{
    vstd::slice::slice_to_vec(s.as_bytes())
}

/// The bytes left in a budget of `max` once `total` have been used: `max - total`, or 0.
pub fn remaining_bytes(max: usize, total: usize) -> (res: usize)
    ensures
        res == if total < max {
            max - total
        } else {
            0
        },
{
    max.saturating_sub(total)
}

/// How a fetched sub-resource is sanitized.
#[derive(Debug, Clone, Copy, PartialEq, Eq, Structural)]
pub enum ResourceKind {
    Jpeg,
    Png,
    Css,
    Js,
    Pdf,
    Unknown,
}

/// The MIME type a fetched resource is taken to have: the sniffed one, else the declared one,
/// else none (empty).
pub open spec fn effective_mime(sniffed: Option<KnownMime>, declared: Option<Seq<char>>) -> Seq<char> {
    match sniffed {
        Some(k) => known_mime_name(k),
        None => match declared {
            Some(d) => d,
            None => Seq::empty(),
        },
    }
}

/// The kind of a resource by its MIME type `mime` and its URL path `path`, tried in the order
/// JPEG, PNG, CSS, JavaScript, PDF.
pub open spec fn resource_kind_of(mime: Seq<char>, path: Seq<char>) -> ResourceKind {
    if mime == "image/jpeg"@ || seq_ends_with(path, ".jpg"@) || seq_ends_with(path, ".jpeg"@) {
        ResourceKind::Jpeg
    } else if mime == "image/png"@ || seq_ends_with(path, ".png"@) {
        ResourceKind::Png
    } else if mime == "text/css"@ || seq_ends_with(path, ".css"@) {
        ResourceKind::Css
    } else if mime == "text/javascript"@ || mime == "application/javascript"@ || seq_ends_with(
        path,
        ".js"@,
    ) {
        ResourceKind::Js
    } else if mime == "application/pdf"@ || seq_ends_with(path, ".pdf"@) {
        ResourceKind::Pdf
    } else {
        ResourceKind::Unknown
    }
}

/// The kind of the resource at `url`, of sniffed type `sniffed` and cleaned declared type
/// `declared`.
pub fn classify_resource(sniffed: Option<KnownMime>, declared: Option<&str>, url: &Url) -> (res:
    ResourceKind)
    ensures
        res == resource_kind_of(
            effective_mime(
                sniffed,
                match declared {
                    Some(d) => Some(d@),
                    None => None,
                },
            ),
            url_path(url@),
        ),
{
    let mime: Vec<char> = match sniffed {
        Some(k) => chars_of(k.as_str()),
        None => match declared {
            Some(d) => chars_of(d),
            None => Vec::new(),
        },
    };
    let path_s = url.path();
    let path = chars_of(path_s.as_str());
    if chars_eq_str(&mime, "image/jpeg") || chars_ends_with_str(&path, ".jpg") || chars_ends_with_str(
        &path,
        ".jpeg",
    ) {
        ResourceKind::Jpeg
    } else if chars_eq_str(&mime, "image/png") || chars_ends_with_str(&path, ".png") {
        ResourceKind::Png
    } else if chars_eq_str(&mime, "text/css") || chars_ends_with_str(&path, ".css") {
        ResourceKind::Css
    } else if chars_eq_str(&mime, "text/javascript") || chars_eq_str(&mime, "application/javascript")
        || chars_ends_with_str(&path, ".js") {
        ResourceKind::Js
    } else if chars_eq_str(&mime, "application/pdf") || chars_ends_with_str(&path, ".pdf") {
        ResourceKind::Pdf
    } else {
        ResourceKind::Unknown
    }
}

/// The bytes that replace dangerous JavaScript under `rule`: its replacement's text, or the
/// original `data` when the rule keeps it.
pub open spec fn js_replacement_bytes(rule: RuleWithReplace<JsReplace>, data: Seq<u8>) -> Seq<u8> {
    match rule.replacement() {
        Some(r) => encode_utf8(r@),
        None => data,
    }
}

/// Sanitizes JavaScript source `data`: kept when no dangerous construct is found; otherwise the
/// `dangerous_js` rule either stops with the error or gives the bytes to write.
pub fn sanitize_js_bytes<L: Log>(
    data: Vec<u8>,
    dangerous_js: &RuleWithReplace<JsReplace>,
    logger: &L,
) -> (res: Result<Vec<u8>, SanitizerError>)
    ensures
        match js_scan(utf8_lossy(data@), 0) {
            None => res matches Ok(out) && out@ == data@,
            Some(k) => if dangerous_js.rule_level() == LogLevel::Error {
                res matches Err(SanitizerError::DangerousJsConstruct(m)) && m@ == k.label()
            } else {
                res matches Ok(out) && out@ == js_replacement_bytes(*dangerous_js, data@)
            },
        },
{
    let text = text_of_bytes(data.as_slice());
    match crate::resources::javascript::sanitize(text.as_str()) {
        Ok(()) => Ok(data),
        Err(e) => {
            let to_bytes = |x: &JsReplace| -> (r: Vec<u8>)
                ensures
                    r@ == encode_utf8(x@),
                { bytes_of(x.as_str()) };
            match dangerous_js.handle_with(logger, to_bytes, e) {
                Err(e) => Err(e),
                Ok(Some(bytes)) => Ok(bytes),
                Ok(None) => Ok(data),
            }
        },
    }
}

/// Sanitizes a PDF: its active content, if any, is handled at `pdf_level`; the bytes are kept.
pub fn check_pdf<L: Log>(data: &[u8], pdf_level: LogLevel, logger: &L) -> (res: Result<(), SanitizerError>)
    ensures
        match pdf_scan(data@, 0, false) {
            Some(k) => if pdf_level == LogLevel::Error {
                res matches Err(SanitizerError::ActiveContent(m)) && m@ == k.label()
            } else {
                res is Ok
            },
            None => res is Ok,
        },
{
    match scan_pdf_for_active_content(data) {
        Ok(()) => Ok(()),
        Err(e) => pdf_level.handle(logger, e),
    }
}

/// The rules that govern how fetched sub-resources are sanitized.
pub struct ResourceRules {
    /// The most nesting levels of sub-resources that are followed.
    pub max_depth: usize,
    /// Dangerous constructs in CSS.
    pub dangerous_css: RuleWithReplace<String>,
    /// Dangerous constructs in JavaScript.
    pub dangerous_js: RuleWithReplace<JsReplace>,
    /// Active content in PDF documents.
    pub pdf_active_content: LogLevel,
    /// Resources of no known kind.
    pub unknown_resource: LogLevel,
}

/// Sanitizes a fetched sub-resource of kind `kind` at `url`, found at `depth`: gives the bytes to
/// write and the nested resources to enqueue (those of a stylesheet, while `depth` is below the
/// maximum), or the error that stops it.
pub fn sanitize_resource<L: Log>(
    kind: ResourceKind,
    data: Vec<u8>,
    url: &Url,
    depth: usize,
    rules: &ResourceRules,
    logger: &L,
) -> (res: Result<(Vec<u8>, Vec<(Url, String)>), SanitizerError>)
    ensures
        match kind {
            ResourceKind::Jpeg => res matches Ok((out, nested)) && out@ == strip_jpeg_spec(data@)
                && nested@.len() == 0,
            ResourceKind::Png => res matches Ok((out, nested)) && out@ == strip_png_spec(data@)
                && nested@.len() == 0,
            ResourceKind::Css => match css_run(
                utf8_lossy(data@),
                0,
                url@,
                rules.dangerous_css.rule_level(),
                replacement_view(rules.dangerous_css),
                seq![],
                seq![],
            ) {
                Ok((o, e)) => res matches Ok((out, nested)) && out@ == encode_utf8(o) && pairs_view(
                    nested@,
                ) == if depth < rules.max_depth {
                    e
                } else {
                    Seq::empty()
                },
                Err(u) => res matches Err(SanitizerError::DangerousCssConstruct(m)) && m@ == u,
            },
            ResourceKind::Js => match js_scan(utf8_lossy(data@), 0) {
                None => res matches Ok((out, nested)) && out@ == data@ && nested@.len() == 0,
                Some(k) => if rules.dangerous_js.rule_level() == LogLevel::Error {
                    res matches Err(SanitizerError::DangerousJsConstruct(m)) && m@ == k.label()
                } else {
                    res matches Ok((out, nested)) && out@ == js_replacement_bytes(
                        rules.dangerous_js,
                        data@,
                    ) && nested@.len() == 0
                },
            },
            ResourceKind::Pdf => match pdf_scan(data@, 0, false) {
                Some(k) => if rules.pdf_active_content == LogLevel::Error {
                    res matches Err(SanitizerError::ActiveContent(m)) && m@ == k.label()
                } else {
                    res matches Ok((out, nested)) && out@ == data@ && nested@.len() == 0
                },
                None => res matches Ok((out, nested)) && out@ == data@ && nested@.len() == 0,
            },
            ResourceKind::Unknown => if rules.unknown_resource == LogLevel::Error {
                res matches Err(SanitizerError::UnknownResourceType)
            } else {
                res matches Ok((out, nested)) && out@ == data@ && nested@.len() == 0
            },
        },
{
    match kind {
        ResourceKind::Jpeg => Ok((strip_jpeg_metadata(data.as_slice()), Vec::new())),
        ResourceKind::Png => Ok((strip_png_metadata(data.as_slice()), Vec::new())),
        ResourceKind::Css => {
            let text = text_of_bytes(data.as_slice());
            match crate::resources::css::sanitize(text.as_str(), url, logger, &rules.dangerous_css) {
                Err(e) => Err(e),
                Ok((css, nested)) => {
                    let out = bytes_of(css.as_str());
                    if depth < rules.max_depth {
                        Ok((out, nested))
                    } else {
                        let none: Vec<(Url, String)> = Vec::new();
                        assert(pairs_view(none@) =~= Seq::<(Seq<char>, Seq<char>)>::empty());
                        Ok((out, none))
                    }
                },
            }
        },
        ResourceKind::Js => match sanitize_js_bytes(data, &rules.dangerous_js, logger) {
            Err(e) => Err(e),
            Ok(out) => Ok((out, Vec::new())),
        },
        ResourceKind::Pdf => match check_pdf(data.as_slice(), rules.pdf_active_content, logger) {
            Err(e) => Err(e),
            Ok(()) => Ok((data, Vec::new())),
        },
        ResourceKind::Unknown => match rules.unknown_resource.handle(
            logger,
            SanitizerError::UnknownResourceType,
        ) {
            Err(e) => Err(e),
            Ok(()) => Ok((data, Vec::new())),
        },
    }
}

/// What becomes of a discovered sub-resource.
#[derive(Debug, Clone, Copy, PartialEq, Eq, Structural)]
pub enum EnqueueDecision {
    /// It was already visited or enqueued: nothing is done.
    AlreadyVisited,
    /// The request limit is used up: it is not fetched; `log` marks the first request past the
    /// limit, which is logged.
    LimitReached { log: bool },
    /// It is registered and fetched; `depth_exceeded` marks a depth beyond the maximum, which the
    /// depth rule handles first.
    Accept { depth_exceeded: bool },
}

/// Decides on a sub-resource found at `depth`: one not `visited` before counts as a request in
/// `total_requests`, and is accepted while the count stays within `max_requests`.
pub fn decide_enqueue(
    visited: bool,
    total_requests: &mut usize,
    max_requests: usize,
    depth: usize,
    max_depth: usize,
) -> (res: EnqueueDecision)
    requires
        !visited ==> *old(total_requests) < usize::MAX,
    ensures
        visited ==> res == EnqueueDecision::AlreadyVisited && *final(total_requests) == *old(
            total_requests,
        ),
        !visited ==> *final(total_requests) == *old(total_requests) + 1,
        !visited && *final(total_requests) > max_requests ==> res == (EnqueueDecision::LimitReached {
            log: *final(total_requests) == max_requests + 1,
        }),
        !visited && *final(total_requests) <= max_requests ==> res == (EnqueueDecision::Accept {
            depth_exceeded: depth > max_depth,
        }),
{
    if visited {
        return EnqueueDecision::AlreadyVisited;
    }
    *total_requests = *total_requests + 1;
    if *total_requests > max_requests {
        EnqueueDecision::LimitReached { log: *total_requests - 1 == max_requests }
    } else {
        EnqueueDecision::Accept { depth_exceeded: depth > max_depth }
    }
}

/// The index recorded for the URL text `u` among `entries`: that of its last entry.
pub open spec fn last_index_for(entries: Seq<(Seq<char>, usize)>, u: Seq<char>) -> Option<usize>
    decreases entries.len(),
{
    if entries.len() == 0 {
        None
    } else if entries.last().0 == u {
        Some(entries.last().1)
    } else {
        last_index_for(entries.drop_last(), u)
    }
}

/// The URLs that a run has registered, each with the index of the input it belongs to.
#[derive(Debug)]
pub struct VisitedUrls {
    entries: Vec<(String, usize)>,
}

impl VisitedUrls {
    /// The registrations made, in order, by their texts.
    pub closed spec fn entries_view(&self) -> Seq<(Seq<char>, usize)> {
        self.entries@.map_values(|p: (String, usize)| (p.0@, p.1))
    }

    /// The input index registered for the URL text `u`, if it is registered.
    pub open spec fn index_for(&self, u: Seq<char>) -> Option<usize> {
        last_index_for(self.entries_view(), u)
    }

    /// No URL registered yet.
    pub fn new() -> (res: Self)
        ensures
            forall|u: Seq<char>| #[trigger] res.index_for(u) is None,
    {
        let res = VisitedUrls { entries: Vec::new() };
        assert(res.entries_view() =~= Seq::<(Seq<char>, usize)>::empty());
        res
    }

    /// The input index registered for `url`.
    pub fn index_of(&self, url: &str) -> (res: Option<usize>)
        ensures
            res == self.index_for(url@),
    {
        let u = chars_of(url);
        let mut k: usize = self.entries.len();
        assert(self.entries_view().take(k as int) =~= self.entries_view());
        while k > 0
            invariant
                k <= self.entries@.len(),
                u@ == url@,
                last_index_for(self.entries_view(), url@) == last_index_for(
                    self.entries_view().take(k as int),
                    url@,
                ),
            decreases k,
        {
            let ghost pre = self.entries_view().take(k as int);
            assert(pre.last() == (self.entries@[k - 1].0@, self.entries@[k - 1].1));
            assert(pre.drop_last() =~= self.entries_view().take(k - 1));
            if crate::text::chars_eq_str(&u, self.entries[k - 1].0.as_str()) {
                return Some(self.entries[k - 1].1);
            }
            k = k - 1;
        }
        assert(self.entries_view().take(0) =~= Seq::<(Seq<char>, usize)>::empty());
        None
    }

    /// Registers `url` for the input `index`; other registrations stay as they are.
    pub fn record(&mut self, url: &str, index: usize)
        ensures
            final(self).index_for(url@) == Some(index),
            forall|v: Seq<char>| v != url@ ==> #[trigger] final(self).index_for(v) == old(self).index_for(v),
    {
        let ghost before = self.entries_view();
        self.entries.push((url.to_owned(), index));
        assert(self.entries_view() =~= before.push((url@, index)));
        assert(self.entries_view().drop_last() =~= before);
    }

    /// Decides on a sub-resource at `url`, found for input `index` at `depth`, as
    /// `decide_enqueue` does with `visited` telling whether `url` is registered, and registers it
    /// when it is accepted.
    pub fn enqueue(
        &mut self,
        url: &str,
        index: usize,
        total_requests: &mut usize,
        max_requests: usize,
        depth: usize,
        max_depth: usize,
    ) -> (res: EnqueueDecision)
        requires
            old(self).index_for(url@) is None ==> *old(total_requests) < usize::MAX,
        ensures
            old(self).index_for(url@) is Some ==> res == EnqueueDecision::AlreadyVisited
                && *final(total_requests) == *old(total_requests),
            old(self).index_for(url@) is None ==> *final(total_requests) == *old(total_requests) + 1,
            old(self).index_for(url@) is None && *final(total_requests) > max_requests ==> res == (
            EnqueueDecision::LimitReached { log: *final(total_requests) == max_requests + 1 }),
            old(self).index_for(url@) is None && *final(total_requests) <= max_requests ==> res == (
            EnqueueDecision::Accept { depth_exceeded: depth > max_depth }),
            res is Accept ==> final(self).index_for(url@) == Some(index),
            !(res is Accept) ==> final(self).index_for(url@) == old(self).index_for(url@),
            forall|v: Seq<char>| v != url@ ==> #[trigger] final(self).index_for(v) == old(self).index_for(v),
    {
        let visited = self.index_of(url).is_some();
        let decision = decide_enqueue(visited, total_requests, max_requests, depth, max_depth);
        match decision {
            EnqueueDecision::Accept { .. } => {
                self.record(url, index);
            },
            _ => {},
        }
        decision
    }
}

/// The sub-resources a session fetches from a run of discovered `urls`, with the URLs already
/// registered `visited` and `total` requests counted, when at most `max` requests are allowed:
/// each step is what `VisitedUrls::enqueue` does, an accepted URL being registered.
pub open spec fn enqueue_run(visited: Set<Seq<char>>, total: nat, urls: Seq<Seq<char>>, max: nat) -> Seq<
    Seq<char>,
>
    decreases urls.len(),
{
    if urls.len() == 0 {
        Seq::empty()
    } else {
        let u = urls[0];
        if visited.contains(u) {
            enqueue_run(visited, total, urls.drop_first(), max)
        } else if total + 1 > max {
            enqueue_run(visited, total + 1, urls.drop_first(), max)
        } else {
            seq![u] + enqueue_run(visited.insert(u), total + 1, urls.drop_first(), max)
        }
    }
}

/// How many times the request limit is logged over the same run.
pub open spec fn limit_logs(visited: Set<Seq<char>>, total: nat, urls: Seq<Seq<char>>, max: nat) -> nat
    decreases urls.len(),
{
    if urls.len() == 0 {
        0
    } else {
        let u = urls[0];
        if visited.contains(u) {
            limit_logs(visited, total, urls.drop_first(), max)
        } else {
            let here: nat = if total + 1 == max + 1 {
                1
            } else {
                0
            };
            let next = if total + 1 > max {
                visited
            } else {
                visited.insert(u)
            };
            here + limit_logs(next, total + 1, urls.drop_first(), max)
        }
    }
}

/// A session fetches every URL at most once, none that was registered before, and no more
/// sub-resources than the requests left under the limit.
pub proof fn lemma_session_fetches_within_limit(
    visited: Set<Seq<char>>,
    total: nat,
    urls: Seq<Seq<char>>,
    max: nat,
)
    ensures
        ({
            let run = enqueue_run(visited, total, urls, max);
            &&& run.len() == 0 || total + run.len() <= max
            &&& run.no_duplicates()
            &&& forall|k: int| 0 <= k < run.len() ==> !visited.contains(#[trigger] run[k])
        }),
    decreases urls.len(),
{
    if urls.len() > 0 {
        let u = urls[0];
        let tail = urls.drop_first();
        if visited.contains(u) {
            lemma_session_fetches_within_limit(visited, total, tail, max);
        } else if total + 1 > max {
            lemma_session_fetches_within_limit(visited, total + 1, tail, max);
        } else {
            let v2 = visited.insert(u);
            lemma_session_fetches_within_limit(v2, total + 1, tail, max);
            let rest = enqueue_run(v2, total + 1, tail, max);
            let run = seq![u] + rest;
            assert(run =~= enqueue_run(visited, total, urls, max));
            assert forall|k: int| 0 <= k < run.len() implies !visited.contains(#[trigger] run[k]) by {
                if k > 0 {
                    assert(run[k] == rest[k - 1]);
                    assert(!v2.contains(rest[k - 1]));
                }
            }
            assert forall|i: int, j: int| 0 <= i < j < run.len() implies run[i] != run[j] by {
                assert(run[j] == rest[j - 1]);
                assert(!v2.contains(rest[j - 1]));
                if i > 0 {
                    assert(run[i] == rest[i - 1]);
                }
            }
        }
    }
}

proof fn lemma_no_logs_past_limit(visited: Set<Seq<char>>, total: nat, urls: Seq<Seq<char>>, max: nat)
    requires
        total > max,
    ensures
        limit_logs(visited, total, urls, max) == 0,
    decreases urls.len(),
{
    if urls.len() > 0 {
        let u = urls[0];
        if visited.contains(u) {
            lemma_no_logs_past_limit(visited, total, urls.drop_first(), max);
        } else {
            lemma_no_logs_past_limit(visited, total + 1, urls.drop_first(), max);
        }
    }
}

/// The request limit is logged at most once in a session.
pub proof fn lemma_limit_logged_once(visited: Set<Seq<char>>, total: nat, urls: Seq<Seq<char>>, max: nat)
    ensures
        limit_logs(visited, total, urls, max) <= 1,
    decreases urls.len(),
{
    if urls.len() > 0 {
        let u = urls[0];
        let tail = urls.drop_first();
        if visited.contains(u) {
            lemma_limit_logged_once(visited, total, tail, max);
        } else if total + 1 > max {
            lemma_no_logs_past_limit(visited, total + 1, tail, max);
        } else {
            lemma_limit_logged_once(visited.insert(u), total + 1, tail, max);
        }
    }
}

/// How a local input file is processed, by its lowercased extension.
#[derive(Debug, Clone, Copy, PartialEq, Eq, Structural)]
pub enum LocalFileKind {
    Pdf,
    Css,
    Js,
    Html,
}

/// The kind of a local file with lowercased extension `ext`: `pdf`, `css` and `js` by name,
/// anything else as HTML.
pub open spec fn local_file_kind_of(ext: Seq<char>) -> LocalFileKind {
    if ext == "pdf"@ {
        LocalFileKind::Pdf
    } else if ext == "css"@ {
        LocalFileKind::Css
    } else if ext == "js"@ {
        LocalFileKind::Js
    } else {
        LocalFileKind::Html
    }
}

/// The kind of a local file with lowercased extension `ext`.
pub fn local_file_kind(ext: &str) -> (res: LocalFileKind)
    ensures
        res == local_file_kind_of(ext@),
{
    let e = chars_of(ext);
    if chars_eq_str(&e, "pdf") {
        LocalFileKind::Pdf
    } else if chars_eq_str(&e, "css") {
        LocalFileKind::Css
    } else if chars_eq_str(&e, "js") {
        LocalFileKind::Js
    } else {
        LocalFileKind::Html
    }
}

/// The URL that an input names when it is a web address: it parses as a URL with scheme `http`
/// or `https`.
pub open spec fn web_url_of(input: Seq<char>) -> Option<Seq<char>> {
    match parsed_url(input) {
        Some(u) => if url_scheme(u) == "http"@ || url_scheme(u) == "https"@ {
            Some(u)
        } else {
            None
        },
        None => None,
    }
}

/// The URL an input names, when it is a web address rather than a path.
pub fn web_url(input: &str) -> (res: Option<Url>)
    ensures
        match web_url_of(input@) {
            Some(u) => res matches Some(r) && r@ == u,
            None => res is None,
        },
{
    match Url::parse(input) {
        Some(u) => {
            let scheme = chars_of(u.scheme().as_str());
            if chars_eq_str(&scheme, "http") || chars_eq_str(&scheme, "https") {
                Some(u)
            } else {
                None
            }
        },
        None => None,
    }
}

} // verus!
