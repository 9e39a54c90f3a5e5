use vstd::prelude::*;

use crate::resources::javascript::{find_dangerous_js, js_scan, JsConstruct};
use crate::resources::local_filename;
use crate::resources::mime::{clean, clean_spec, known_mime_name, parse_known_mime, sniff, sniff_spec, KnownMime};
use crate::resources::css::{css_url_ext, is_dangerous_css_url, pairs_view, skip_to, import_at, lemma_skip_to_ge};
use crate::text::{
    after_last_chars, before_first_chars, chars_at_str, chars_eq_str, chars_of, is_whitespace,
    push_chars, push_str, seq_at, skip_ws, skip_ws_from, slice_chars, string_of, trim_chars,
    trim_matches_chars, trim_matches_seq, trim_seq,
};
use crate::url::{joined_url, Url};

pub use crate::resources::{generate_local_filename, strip_jpeg_metadata, strip_png_metadata};

verus! {

/// A failed sanitization, by its message.
#[derive(Debug, Clone)]
pub struct SanitizationError(pub String);

/// A declared MIME type that the content does not match (the declared type).
#[derive(Debug, Clone)]
pub struct MimeError(pub String);

/// Sniffs the mime type of a byte buffer using magic bytes.
///
/// Returns the MIME type text if a signature is matched, otherwise `None`.
pub fn sniff_mime(data: &[u8]) -> (res: Option<&'static str>)
    ensures
        match sniff_spec(data@) {
            Some(k) => (res matches Some(s) && s@ == known_mime_name(k)),
            None => res is None,
        },
{
    match sniff(data) {
        Some(k) => Some(k.as_str()),
        None => None,
    }
}

/// Extracts the MIME type from a `Content-Type` header and normalizes it
pub fn clean_mime(content_type: &str) -> (res: String)
    ensures
        res@ == clean_spec(content_type@),
{
    clean(content_type)
}

/// The mismatch that `validate_mime` reports: the cleaned declared type, when it is one of
/// the known types and the sniffed type differs from it.
pub open spec fn mime_mismatch(declared: Option<Seq<char>>, sniffed: Option<Seq<char>>) -> Option<Seq<char>> {
    match declared {
        Some(d) => {
            let c = clean_spec(d);
            if parse_known_mime(c) is Some && sniffed != Some(c) {
                Some(c)
            } else {
                None
            }
        },
        None => None,
    }
}

/// Validates that the declared MIME type matches the sniffed MIME type.
pub fn validate_mime(declared: Option<&str>, sniffed: Option<&str>) -> (res: Result<(), MimeError>)
    ensures
        match mime_mismatch(
            match declared {
                Some(d) => Some(d@),
                None => None,
            },
            match sniffed {
                Some(s) => Some(s@),
                None => None,
            },
        ) {
            Some(c) => (res matches Err(MimeError(m)) && m@ == c),
            None => res is Ok,
        },
{
    if let Some(decl) = declared {
        let cleaned = clean_mime(decl);
        let known = KnownMime::parse(cleaned.as_str()).is_some();
        let same = match sniffed {
            Some(s) => {
                let cv = chars_of(cleaned.as_str());
                chars_eq_str(&cv, s)
            },
            None => false,
        };
        if known && !same {
            return Err(MimeError(cleaned));
        }
    }
    Ok(())
}

/// The message of each dangerous JavaScript construct.
pub open spec fn js_error_message(k: JsConstruct) -> Seq<char> {
    match k {
        JsConstruct::Eval => "Dangerous construct 'eval(...)' detected in JS"@,
        JsConstruct::DocumentWrite => "Dangerous construct 'document.write(...)' detected in JS"@,
    }
}

/// Scans JS file for dangerous constructs (eval, document.write).
///
/// Returns the content if no dangerous keywords are found, otherwise an error naming the first one.
pub fn sanitize_javascript(content: &str) -> (res: Result<String, SanitizationError>)
    ensures
        match js_scan(content@, 0) {
            None => (res matches Ok(s) && s@ == content@),
            Some(k) => (res matches Err(SanitizationError(m)) && m@ == js_error_message(k)),
        },
{
    let v = chars_of(content);
    match find_dangerous_js(&v) {
        None => Ok(content.to_string()),
        Some(JsConstruct::Eval) => Err(
            SanitizationError("Dangerous construct 'eval(...)' detected in JS".to_string()),
        ),
        Some(JsConstruct::DocumentWrite) => Err(
            SanitizationError("Dangerous construct 'document.write(...)' detected in JS".to_string()),
        ),
    }
}

/// A URL text cleaned of surrounding whitespace and quotes.
pub open spec fn clean_quoted(s: Seq<char>) -> Seq<char> {
    trim_seq(trim_matches_seq(trim_matches_seq(trim_seq(s), '"'), '\''))
}

/// The position after the closing `c` found from `e` (or `e` itself at the end).
pub open spec fn past(s: Seq<char>, e: nat) -> nat {
    if e < s.len() {
        e + 1
    } else {
        e
    }
}

/// The URL text of the `@import` rule at `i` and the position after the rule.
pub open spec fn old_import_url(s: Seq<char>, i: nat) -> (Seq<char>, nat) {
    let j = skip_ws_from(s, i + 7);
    let (url, k) = if seq_at(s, j as int, "url("@) {
        let e = skip_to(s, j + 4, ')');
        (s.subrange(j + 4 as int, e as int), past(s, e))
    } else if j < s.len() && (s[j as int] == '"' || s[j as int] == '\'') {
        let e = skip_to(s, j + 1, s[j as int]);
        (s.subrange(j + 1 as int, e as int), past(s, e))
    } else {
        let e = skip_to(s, j, ';');
        (s.subrange(j as int, e as int), e)
    };
    (url, past(s, skip_to(s, k, ';')))
}

/// The URL text of the `url(...)` reference at `i` and the position after it.
pub open spec fn old_url_ref(s: Seq<char>, i: nat) -> (Seq<char>, nat) {
    let e = skip_to(s, i + 4, ')');
    (s.subrange(i + 4 as int, e as int), past(s, e))
}

pub proof fn lemma_old_positions(s: Seq<char>, i: nat)
    requires
        i < s.len(),
    ensures
        old_import_url(s, i).1 > i,
        old_url_ref(s, i).1 > i,
        seq_at(s, i as int, "url("@) ==> old_url_ref(s, i).1 >= i + 4,
{
    reveal_strlit("url(");
    let j = skip_ws_from(s, i + 7);
    crate::resources::css::lemma_skip_ws_from_ge(s, i + 7);
    lemma_skip_to_ge(s, j + 4, ')');
    lemma_skip_to_ge(s, j + 1, s[j as int]);
    lemma_skip_to_ge(s, j, ';');
    lemma_skip_to_ge(s, i + 4, ')');
    let k = if seq_at(s, j as int, "url("@) {
        past(s, skip_to(s, j + 4, ')'))
    } else if j < s.len() && (s[j as int] == '"' || s[j as int] == '\'') {
        past(s, skip_to(s, j + 1, s[j as int]))
    } else {
        skip_to(s, j, ';')
    };
    lemma_skip_to_ge(s, k, ';');
}

/// The older CSS sanitizer from position `i`, with `out` and `ext` produced so far:
/// `data:` and `javascript:` URLs become `url("")`.
pub open spec fn old_css_run(
    s: Seq<char>,
    i: nat,
    base: Seq<char>,
    out: Seq<char>,
    ext: Seq<(Seq<char>, Seq<char>)>,
) -> (Seq<char>, Seq<(Seq<char>, Seq<char>)>)
    decreases (if i < s.len() { s.len() - i } else { 0 }),
{
    if i >= s.len() {
        (out, ext)
    } else if import_at(s, i as int) {
        let u = old_import_url(s, i);
        proof {
            lemma_old_positions(s, i);
        }
        let clean = clean_quoted(u.0);
        if clean.len() > 0 && joined_url(base, clean) is Some {
            let r = joined_url(base, clean)->0;
            let name = local_filename(r, "css"@);
            old_css_run(s, u.1, base, out + "@import \""@ + name + "\";"@, ext.push((r, name)))
        } else {
            old_css_run(s, u.1, base, out, ext)
        }
    } else if seq_at(s, i as int, "url("@) {
        let u = old_url_ref(s, i);
        proof {
            lemma_old_positions(s, i);
        }
        let clean = clean_quoted(u.0);
        if is_dangerous_css_url(clean) {
            old_css_run(s, u.1, base, out + "url(\"\")"@, ext)
        } else if joined_url(base, clean) is Some {
            let r = joined_url(base, clean)->0;
            let name = local_filename(r, css_url_ext(clean));
            old_css_run(s, u.1, base, out + "url(\""@ + name + "\")"@, ext.push((r, name)))
        } else {
            old_css_run(s, u.1, base, out + "url(\"\")"@, ext)
        }
    } else {
        old_css_run(s, i + 1, base, out.push(s[i as int]), ext)
    }
}

fn clean_quoted_chars(v: &Vec<char>) -> (res: Vec<char>)
    ensures
        res@ == clean_quoted(v@),
{
    let a = trim_chars(v);
    let b = trim_matches_chars(&a, '"');
    let c = trim_matches_chars(&b, '\'');
    trim_chars(&c)
}

/// The position of the first `c` at or after `i` (or the end).
fn find_char(chars: &Vec<char>, i: usize, c: char) -> (res: usize)
    ensures
        res as nat == skip_to(chars@, i as nat, c),
        res >= i,
        i <= chars@.len() ==> res <= chars@.len(),
{
    let n = chars.len();
    let mut m = i;
    while m < n && chars[m] != c
        invariant
            n == chars@.len(),
            m >= i,
            i <= n ==> m <= n,
            skip_to(chars@, m as nat, c) == skip_to(chars@, i as nat, c),
        decreases n - m,
    {
        m = m + 1;
    }
    m
}

fn after(chars: &Vec<char>, e: usize) -> (res: usize)
    ensures
        res as nat == past(chars@, e as nat),
{
    if e < chars.len() {
        e + 1
    } else {
        e
    }
}

fn old_rewrite_import(
    chars: &Vec<char>,
    i: usize,
    base_url: &Url,
    output: &mut Vec<char>,
    extracted: &mut Vec<(Url, String)>,
) -> (next: usize)
    requires
        import_at(chars@, i as int),
    ensures
        next > i,
        old_css_run(chars@, i as nat, base_url@, old(output)@, pairs_view(old(extracted)@))
            == old_css_run(chars@, next as nat, base_url@, final(output)@, pairs_view(final(extracted)@)),
{
    proof {
        lemma_old_positions(chars@, i as nat);
        reveal_strlit("url(");
    }
    let n = chars.len();
    let j = skip_ws(chars, i + 7);
    let (url, k) = if chars_at_str(chars, j, "url(") {
        let e = find_char(chars, j + 4, ')');
        proof {
            lemma_skip_to_ge(chars@, (j + 4) as nat, ')');
        }
        (slice_chars(chars, j + 4, e), after(chars, e))
    } else if j < n && (chars[j] == '"' || chars[j] == '\'') {
        let e = find_char(chars, j + 1, chars[j]);
        proof {
            lemma_skip_to_ge(chars@, (j + 1) as nat, chars@[j as int]);
        }
        (slice_chars(chars, j + 1, e), after(chars, e))
    } else {
        let e = find_char(chars, j, ';');
        proof {
            lemma_skip_to_ge(chars@, j as nat, ';');
        }
        (slice_chars(chars, j, e), e)
    };
    let k2 = find_char(chars, k, ';');
    let next = after(chars, k2);
    assert(url@ == old_import_url(chars@, i as nat).0);
    assert(next as nat == old_import_url(chars@, i as nat).1);
    let url_clean = clean_quoted_chars(&url);
    if url_clean.len() > 0 {
        let clean_text = string_of(&url_clean);
        if let Some(resolved_url) = base_url.join(clean_text.as_str()) {
            let local_name = generate_local_filename(&resolved_url, "css");
            push_str(output, "@import \"");
            let name_chars = chars_of(local_name.as_str());
            push_chars(output, &name_chars);
            push_str(output, "\";");
            let ghost before = extracted@;
            extracted.push((resolved_url, local_name));
            assert(pairs_view(extracted@) =~= pairs_view(before).push((resolved_url@, local_name@)));
        }
    }
    next
}

fn old_rewrite_url_ref(
    chars: &Vec<char>,
    i: usize,
    base_url: &Url,
    output: &mut Vec<char>,
    extracted: &mut Vec<(Url, String)>,
) -> (next: usize)
    requires
        seq_at(chars@, i as int, "url("@),
        !import_at(chars@, i as int),
    ensures
        next > i,
        old_css_run(chars@, i as nat, base_url@, old(output)@, pairs_view(old(extracted)@))
            == old_css_run(chars@, next as nat, base_url@, final(output)@, pairs_view(final(extracted)@)),
{
    proof {
        reveal_strlit("url(");
    }
    let n = chars.len();
    assert(i + 4 <= n);
    proof {
        lemma_old_positions(chars@, i as nat);
        lemma_skip_to_ge(chars@, (i + 4) as nat, ')');
    }
    let e = find_char(chars, i + 4, ')');
    let url = slice_chars(chars, i + 4, e);
    let next = after(chars, e);
    let url_clean = clean_quoted_chars(&url);
    if chars_at_str(&url_clean, 0, "data:") || chars_at_str(&url_clean, 0, "javascript:") {
        push_str(output, "url(\"\")");
    } else {
        let clean_text = string_of(&url_clean);
        if let Some(resolved_url) = base_url.join(clean_text.as_str()) {
            let tail = match after_last_chars(&url_clean, '.') {
                Some(x) => x,
                None => url_clean,
            };
            let ext = string_of(&before_first_chars(&tail, '?'));
            let local_name = generate_local_filename(&resolved_url, ext.as_str());
            push_str(output, "url(\"");
            let name_chars = chars_of(local_name.as_str());
            push_chars(output, &name_chars);
            push_str(output, "\")");
            let ghost before = extracted@;
            extracted.push((resolved_url, local_name));
            assert(pairs_view(extracted@) =~= pairs_view(before).push((resolved_url@, local_name@)));
        } else {
            push_str(output, "url(\"\")");
        }
    }
    next
}

/// Scans CSS content for @import and url(...) references, validates/rewrites them, and extracts them.
///
/// Returns the rewritten CSS, with references updated to local filenames (and `data:` or
/// `javascript:` URLs emptied), and the resolved URLs of the sub-resources with their local filenames.
pub fn sanitize_css(css: &str, base_url: &Url) -> (res: (String, Vec<(Url, String)>))
    ensures
        (res.0@, pairs_view(res.1@)) == old_css_run(css@, 0, base_url@, seq![], seq![]),
{
    let chars = chars_of(css);
    let n = chars.len();
    let mut output: Vec<char> = Vec::new();
    let mut extracted: Vec<(Url, String)> = Vec::new();
    let mut i: usize = 0;
    let ghost goal = old_css_run(chars@, 0, base_url@, seq![], seq![]);
    assert(pairs_view(extracted@) =~= Seq::<(Seq<char>, Seq<char>)>::empty());
    while i < n
        invariant
            n == chars@.len(),
            chars@ == css@,
            goal == old_css_run(chars@, 0, base_url@, seq![], seq![]),
            goal == old_css_run(chars@, i as nat, base_url@, output@, pairs_view(extracted@)),
        decreases (if i < n { n - i } else { 0 }),
    {
        if n - i > 7 && chars_at_str(&chars, i, "@import") && (is_whitespace(chars[i + 7])
            || chars[i + 7] == '(') {
            i = old_rewrite_import(&chars, i, base_url, &mut output, &mut extracted);
            continue;
        }
        if chars_at_str(&chars, i, "url(") {
            i = old_rewrite_url_ref(&chars, i, base_url, &mut output, &mut extracted);
            continue;
        }
        output.push(chars[i]);
        i = i + 1;
    }
    (string_of(&output), extracted)
}

} // verus!
