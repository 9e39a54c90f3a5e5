use vstd::prelude::*;

use crate::errors::SanitizerError;
use crate::log::{Log, LogLevel};
use crate::resources::{generate_local_filename, local_filename};
use crate::rules::RuleWithReplace;
use crate::text::{
    after_last, after_last_chars, before_first, before_first_chars, chars_at_str, chars_of,
    is_whitespace, push_chars, push_str, seq_at, skip_ws, skip_ws_from, string_of, trim_chars,
    trim_seq,
};
use crate::url::{joined_url, Url};

verus! {

/// Reads the characters of a CSS URL from `i`: backslash escapes a backslash (or the closing
/// character), and the text ends at the closing quote `delim`, or, when unquoted, at `end`.
/// Gives the text read and the position after it.
pub open spec fn url_read_loop(
    s: Seq<char>,
    i: nat,
    delim: Option<char>,
    end: char,
    bs: bool,
    acc: Seq<char>,
) -> (Seq<char>, nat)
    decreases s.len() - i,
{
    if i >= s.len() {
        (acc, i)
    } else {
        let c = s[i as int];
        if delim == Some(c) && !bs {
            (acc, i + 1)
        } else if c == end && delim is None && !bs {
            (acc, i + 1)
        } else if c == '\\' {
            if bs {
                url_read_loop(s, i + 1, delim, end, false, acc.push('\\'))
            } else {
                url_read_loop(s, i + 1, delim, end, true, acc)
            }
        } else {
            url_read_loop(s, i + 1, delim, end, false, acc.push(c))
        }
    }
}

/// Reads a (possibly quoted) CSS URL from `i`, skipping whitespace around it, up to and
/// including the closing `end` (`)` of a `url(`, `;` of an `@import`): a quoted value is
/// followed by whitespace and then its `end`, which is consumed with it.
pub open spec fn read_url_spec(s: Seq<char>, i: nat, end: char) -> (Seq<char>, nat) {
    let j = skip_ws_from(s, i);
    let quoted = j < s.len() && (s[j as int] == '"' || s[j as int] == '\'');
    let delim = if quoted {
        Some(s[j as int])
    } else {
        None
    };
    let start = if quoted {
        j + 1
    } else {
        j
    };
    let r = url_read_loop(s, start, delim, end, false, seq![]);
    let k = skip_ws_from(s, r.1);
    if quoted && k < s.len() && s[k as int] == end {
        (r.0, skip_ws_from(s, k + 1))
    } else {
        (r.0, k)
    }
}

pub proof fn lemma_skip_ws_from_ge(s: Seq<char>, i: nat)
    ensures
        skip_ws_from(s, i) >= i,
    decreases s.len() - i,
{
    if i < s.len() && crate::text::is_ws(s[i as int]) {
        lemma_skip_ws_from_ge(s, i + 1);
    }
}

pub proof fn lemma_url_read_loop_ge(s: Seq<char>, i: nat, delim: Option<char>, end: char, bs: bool, acc: Seq<char>)
    ensures
        url_read_loop(s, i, delim, end, bs, acc).1 >= i,
    decreases s.len() - i,
{
    if i < s.len() {
        let c = s[i as int];
        if !(delim == Some(c) && !bs) && !(c == end && delim is None && !bs) {
            if c == '\\' {
                if bs {
                    lemma_url_read_loop_ge(s, i + 1, delim, end, false, acc.push('\\'));
                } else {
                    lemma_url_read_loop_ge(s, i + 1, delim, end, true, acc);
                }
            } else {
                lemma_url_read_loop_ge(s, i + 1, delim, end, false, acc.push(c));
            }
        }
    }
}

pub proof fn lemma_read_url_ge(s: Seq<char>, i: nat, end: char)
    ensures
        read_url_spec(s, i, end).1 >= i,
{
    let j = skip_ws_from(s, i);
    lemma_skip_ws_from_ge(s, i);
    let quoted = j < s.len() && (s[j as int] == '"' || s[j as int] == '\'');
    let delim = if quoted {
        Some(s[j as int])
    } else {
        None
    };
    let start = if quoted {
        j + 1
    } else {
        j
    };
    lemma_url_read_loop_ge(s, start, delim, end, false, seq![]);
    let k = skip_ws_from(s, url_read_loop(s, start, delim, end, false, seq![]).1);
    lemma_skip_ws_from_ge(s, url_read_loop(s, start, delim, end, false, seq![]).1);
    lemma_skip_ws_from_ge(s, k + 1);
}

/// The first position at or after `i` that holds `c` (or the end).
pub open spec fn skip_to(s: Seq<char>, i: nat, c: char) -> nat
    decreases s.len() - i,
{
    if i >= s.len() || s[i as int] == c {
        i
    } else {
        skip_to(s, i + 1, c)
    }
}

pub proof fn lemma_skip_to_ge(s: Seq<char>, i: nat, c: char)
    ensures
        skip_to(s, i, c) >= i,
    decreases s.len() - i,
{
    if i < s.len() && s[i as int] != c {
        lemma_skip_to_ge(s, i + 1, c);
    }
}

/// An `@import` rule starts at `i`: `@import` followed by whitespace or `(`.
pub open spec fn import_at(s: Seq<char>, i: int) -> bool {
    i + 7 < s.len() && seq_at(s, i, "@import"@) && (crate::text::is_ws(s[i + 7]) || s[i + 7] == '(')
}

/// The URL of the `@import` rule at `i` and the position after the rule.
pub open spec fn import_url(s: Seq<char>, i: nat) -> (Seq<char>, nat) {
    let j = skip_ws_from(s, i + 7);
    if seq_at(s, j as int, "url("@) {
        let r = read_url_spec(s, j + 4, ')');
        (r.0, skip_to(s, r.1, ';') + 1)
    } else {
        read_url_spec(s, j, ';')
    }
}

pub proof fn lemma_import_url_ge(s: Seq<char>, i: nat)
    ensures
        import_url(s, i).1 >= i + 7,
{
    let j = skip_ws_from(s, i + 7);
    lemma_skip_ws_from_ge(s, i + 7);
    if seq_at(s, j as int, "url("@) {
        lemma_read_url_ge(s, j + 4, ')');
        lemma_skip_to_ge(s, read_url_spec(s, j + 4, ')').1, ';');
    } else {
        lemma_read_url_ge(s, j, ';');
    }
}

/// The extension used for the local name of a `url(...)` reference: the text after the last `.`
/// (all of it without one), cut at the first `?`.
pub open spec fn css_url_ext(clean: Seq<char>) -> Seq<char> {
    let tail = match after_last(clean, '.') {
        Some(x) => x,
        None => clean,
    };
    before_first(tail, '?')
}

/// A `data:` or `javascript:` URL.
pub open spec fn is_dangerous_css_url(clean: Seq<char>) -> bool {
    seq_at(clean, 0, "data:"@) || seq_at(clean, 0, "javascript:"@)
}

/// The outcome of sanitizing CSS: the rewritten text and the extracted (URL, local name) pairs,
/// or the dangerous URL that a rule at level `Error` refused.
pub type CssOutcome = Result<(Seq<char>, Seq<(Seq<char>, Seq<char>)>), Seq<char>>;

/// Sanitizing CSS from position `i`, with `out` and `ext` produced so far.
/// `level` and `rep` are those of the rule for dangerous URLs.
pub open spec fn css_run(
    s: Seq<char>,
    i: nat,
    base: Seq<char>,
    level: LogLevel,
    rep: Option<Seq<char>>,
    out: Seq<char>,
    ext: Seq<(Seq<char>, Seq<char>)>,
) -> CssOutcome
    decreases (if i < s.len() { s.len() - i } else { 0 }),
{
    if i >= s.len() {
        Ok((out, ext))
    } else if import_at(s, i as int) {
        let u = import_url(s, i);
        proof {
            lemma_import_url_ge(s, i);
        }
        let clean = trim_seq(u.0);
        if clean.len() > 0 && joined_url(base, clean) is Some {
            let r = joined_url(base, clean)->0;
            let name = local_filename(r, "css"@);
            css_run(s, u.1, base, level, rep, out + "@import \""@ + name + "\";"@, ext.push((r, name)))
        } else {
            css_run(s, u.1, base, level, rep, out, ext)
        }
    } else if seq_at(s, i as int, "url("@) {
        let u = read_url_spec(s, i + 4, ')');
        proof {
            lemma_read_url_ge(s, i + 4, ')');
        }
        let clean = trim_seq(u.0);
        if is_dangerous_css_url(clean) {
            if level == LogLevel::Error {
                Err(clean)
            } else {
                match rep {
                    Some(x) => css_run(s, u.1, base, level, rep, out + "url(\""@ + x + "\")"@, ext),
                    None => css_run(s, u.1, base, level, rep, out + "url("@ + u.0 + ")"@, ext),
                }
            }
        } else if joined_url(base, clean) is Some {
            let r = joined_url(base, clean)->0;
            let name = local_filename(r, css_url_ext(clean));
            css_run(s, u.1, base, level, rep, out + "url(\""@ + name + "\")"@, ext.push((r, name)))
        } else {
            css_run(s, u.1, base, level, rep, out + "url(\"\")"@, ext)
        }
    } else {
        css_run(s, i + 1, base, level, rep, out.push(s[i as int]), ext)
    }
}

proof fn lemma_css_plain(
    s: Seq<char>,
    i: nat,
    base: Seq<char>,
    level: LogLevel,
    rep: Option<Seq<char>>,
    out: Seq<char>,
    ext: Seq<(Seq<char>, Seq<char>)>,
)
    requires
        forall|p: int| i <= p ==> !#[trigger] seq_at(s, p, "url("@) && !seq_at(s, p, "@import"@),
    ensures
        css_run(s, i, base, level, rep, out, ext) == Ok::<(Seq<char>, Seq<(Seq<char>, Seq<char>)>), Seq<char>>(
            (out + (if i < s.len() { s.subrange(i as int, s.len() as int) } else { seq![] }), ext),
        ),
    decreases (if i < s.len() { s.len() - i } else { 0 }),
{
    if i >= s.len() {
        assert(out + Seq::<char>::empty() =~= out);
    } else {
        assert(!seq_at(s, i as int, "url("@) && !seq_at(s, i as int, "@import"@));
        lemma_css_plain(s, i + 1, base, level, rep, out.push(s[i as int]), ext);
        if i + 1 < s.len() {
            assert(out.push(s[i as int]) + s.subrange(i + 1 as int, s.len() as int) =~= out + s.subrange(i as int, s.len() as int));
        } else {
            assert(out.push(s[i as int]) + Seq::<char>::empty() =~= out + s.subrange(i as int, s.len() as int));
        }
    }
}

/// CSS without any `url(` or `@import` is left as it is, and nothing is extracted.
pub proof fn lemma_css_without_references_unchanged(
    s: Seq<char>,
    base: Seq<char>,
    level: LogLevel,
    rep: Option<Seq<char>>,
)
    requires
        forall|p: int| 0 <= p ==> !#[trigger] seq_at(s, p, "url("@) && !seq_at(s, p, "@import"@),
    ensures
        css_run(s, 0, base, level, rep, seq![], seq![]) == Ok::<(Seq<char>, Seq<(Seq<char>, Seq<char>)>), Seq<char>>((s, seq![])),
{
    lemma_css_plain(s, 0, base, level, rep, seq![], seq![]);
    if s.len() > 0 {
        assert(Seq::<char>::empty() + s.subrange(0, s.len() as int) =~= s);
    } else {
        assert(Seq::<char>::empty() + Seq::<char>::empty() =~= s);
    }
}

/// A character that an unquoted URL holds as it is: not whitespace, `)`, `;`, a backslash or a
/// quote.
pub open spec fn plain_url_char(c: char) -> bool {
    !crate::text::is_ws(c) && c != ')' && c != ';' && c != '\\' && c != '"' && c != '\''
}

proof fn lemma_url_read_plain(s: Seq<char>, i: nat, u: Seq<char>, acc: Seq<char>)
    requires
        i + u.len() < s.len(),
        s.subrange(i as int, (i + u.len()) as int) == u,
        forall|j: int| 0 <= j < u.len() ==> plain_url_char(#[trigger] u[j]),
        s[(i + u.len()) as int] == ')',
    ensures
        url_read_loop(s, i, None, ')', false, acc) == (acc + u, (i + u.len() + 1) as nat),
    decreases u.len(),
{
    let ii = i as int;
    if u.len() == 0 {
        assert(acc + u =~= acc);
    } else {
        assert(s[ii] == s.subrange(ii, ii + u.len())[0]);
        let t = u.drop_first();
        assert(s.subrange(ii + 1, ii + 1 + t.len()) =~= t) by {
            assert forall|j: int| 0 <= j < t.len() implies s.subrange(ii + 1, ii + 1 + t.len())[j]
                == t[j] by {
                assert(s.subrange(ii, ii + u.len())[j + 1] == u[j + 1]);
            }
        }
        assert forall|j: int| 0 <= j < t.len() implies plain_url_char(#[trigger] t[j]) by {
            assert(t[j] == u[j + 1]);
        }
        assert(plain_url_char(u[0]));
        lemma_url_read_plain(s, i + 1, t, acc.push(u[0]));
        assert(acc.push(u[0]) + t =~= acc + u);
    }
}

/// An `@import url(U);` rule with a plain, unquoted `U` is replaced by an `@import` of the local
/// copy of `U` resolved against the base, which is extracted; the CSS after its `;` is kept as it
/// is (here, CSS with no further references).
pub proof fn lemma_css_import_url(
    u: Seq<char>,
    rest: Seq<char>,
    base: Seq<char>,
    level: LogLevel,
    rep: Option<Seq<char>>,
)
    requires
        u.len() > 0,
        forall|j: int| 0 <= j < u.len() ==> plain_url_char(#[trigger] u[j]),
        forall|p: int| !#[trigger] seq_at(rest, p, "url("@) && !seq_at(rest, p, "@import"@),
        joined_url(base, u) is Some,
    ensures
        ({
            let s = "@import url("@ + u + ");"@ + rest;
            let r = joined_url(base, u)->0;
            let name = local_filename(r, "css"@);
            css_run(s, 0, base, level, rep, seq![], seq![]) == Ok::<
                (Seq<char>, Seq<(Seq<char>, Seq<char>)>),
                Seq<char>,
            >(("@import \""@ + name + "\";"@ + rest, seq![(r, name)]))
        }),
{
    reveal_strlit("@import url(");
    reveal_strlit(");");
    reveal_strlit("@import");
    reveal_strlit("url(");
    let pre = "@import url("@;
    let s = pre + u + ");"@ + rest;
    let n = u.len() as int;
    let plen = 14 + n;
    assert(s.subrange(0, 7) =~= "@import"@);
    assert(s[7] == ' ');
    assert(import_at(s, 0));
    assert(!crate::text::is_ws(s[8]));
    assert(skip_ws_from(s, 8) == 8);
    assert(skip_ws_from(s, 7) == 8);
    assert(s.subrange(8, 12) =~= "url("@);
    assert(seq_at(s, 8, "url("@));
    assert(s[12] == u[0]);
    assert(plain_url_char(u[0]));
    assert(skip_ws_from(s, 12) == 12);
    assert(s.subrange(12, 12 + n) =~= u);
    assert(s[12 + n] == ')');
    lemma_url_read_plain(s, 12, u, seq![]);
    assert(Seq::<char>::empty() + u =~= u);
    assert(s[13 + n] == ';');
    assert(skip_ws_from(s, (13 + n) as nat) == 13 + n);
    assert(read_url_spec(s, 12, ')') == (u, (13 + n) as nat));
    assert(skip_to(s, (13 + n) as nat, ';') == 13 + n);
    assert(import_url(s, 0) == (u, plen as nat));
    assert(plain_url_char(u[n - 1]));
    assert(trim_seq(u) == u);
    let r = joined_url(base, u)->0;
    let name = local_filename(r, "css"@);
    let out1 = Seq::<char>::empty() + "@import \""@ + name + "\";"@;
    let ext1 = Seq::<(Seq<char>, Seq<char>)>::empty().push((r, name));
    assert(css_run(s, 0, base, level, rep, seq![], seq![]) == css_run(
        s,
        plen as nat,
        base,
        level,
        rep,
        out1,
        ext1,
    ));
    assert(s.subrange(plen, s.len() as int) =~= rest);
    assert forall|p: int| plen <= p implies !#[trigger] seq_at(s, p, "url("@) && !seq_at(
        s,
        p,
        "@import"@,
    ) by {
        if seq_at(s, p, "url("@) {
            assert(s.subrange(p, p + 4) =~= rest.subrange(p - plen, p - plen + 4));
            assert(seq_at(rest, p - plen, "url("@));
        }
        if seq_at(s, p, "@import"@) {
            assert(s.subrange(p, p + 7) =~= rest.subrange(p - plen, p - plen + 7));
            assert(!seq_at(rest, p - plen, "url("@));
            assert(seq_at(rest, p - plen, "@import"@));
        }
    }
    lemma_css_plain(s, plen as nat, base, level, rep, out1, ext1);
    if plen < s.len() {
        assert(out1 + s.subrange(plen, s.len() as int) =~= "@import \""@ + name + "\";"@ + rest);
    } else {
        assert(rest.len() == 0);
        assert(out1 + Seq::<char>::empty() =~= "@import \""@ + name + "\";"@ + rest);
    }
    assert(ext1 =~= seq![(r, name)]);
}

/// The name of an extracted pair is the local file name of its URL (for some extension).
pub open spec fn locally_named(p: (Seq<char>, Seq<char>)) -> bool {
    exists|e: Seq<char>| p.1 == #[trigger] local_filename(p.0, e)
}

proof fn lemma_css_names_from(
    s: Seq<char>,
    i: nat,
    base: Seq<char>,
    level: LogLevel,
    rep: Option<Seq<char>>,
    out: Seq<char>,
    ext: Seq<(Seq<char>, Seq<char>)>,
)
    requires
        forall|k: int| 0 <= k < ext.len() ==> locally_named(#[trigger] ext[k]),
    ensures
        css_run(s, i, base, level, rep, out, ext) matches Ok((o, e)) ==> forall|k: int|
            0 <= k < e.len() ==> locally_named(#[trigger] e[k]),
    decreases (if i < s.len() { s.len() - i } else { 0 }),
{
    if i < s.len() {
        if import_at(s, i as int) {
            let u = import_url(s, i);
            lemma_import_url_ge(s, i);
            let clean = trim_seq(u.0);
            if clean.len() > 0 && joined_url(base, clean) is Some {
                let r = joined_url(base, clean)->0;
                let name = local_filename(r, "css"@);
                let ext2 = ext.push((r, name));
                assert(locally_named((r, name))) by {
                    assert((r, name).1 == local_filename((r, name).0, "css"@));
                }
                assert forall|k: int| 0 <= k < ext2.len() implies locally_named(#[trigger] ext2[k]) by {
                    if k < ext.len() {
                        assert(ext2[k] == ext[k]);
                    }
                }
                lemma_css_names_from(s, u.1, base, level, rep, out + "@import \""@ + name + "\";"@, ext2);
            } else {
                lemma_css_names_from(s, u.1, base, level, rep, out, ext);
            }
        } else if seq_at(s, i as int, "url("@) {
            let u = read_url_spec(s, i + 4, ')');
            lemma_read_url_ge(s, i + 4, ')');
            let clean = trim_seq(u.0);
            if is_dangerous_css_url(clean) {
                if level != LogLevel::Error {
                    match rep {
                        Some(x) => lemma_css_names_from(s, u.1, base, level, rep, out + "url(\""@ + x + "\")"@, ext),
                        None => lemma_css_names_from(s, u.1, base, level, rep, out + "url("@ + u.0 + ")"@, ext),
                    }
                }
            } else if joined_url(base, clean) is Some {
                let r = joined_url(base, clean)->0;
                let name = local_filename(r, css_url_ext(clean));
                let ext2 = ext.push((r, name));
                assert(locally_named((r, name))) by {
                    assert((r, name).1 == local_filename((r, name).0, css_url_ext(clean)));
                }
                assert forall|k: int| 0 <= k < ext2.len() implies locally_named(#[trigger] ext2[k]) by {
                    if k < ext.len() {
                        assert(ext2[k] == ext[k]);
                    }
                }
                lemma_css_names_from(s, u.1, base, level, rep, out + "url(\""@ + name + "\")"@, ext2);
            } else {
                lemma_css_names_from(s, u.1, base, level, rep, out + "url(\"\")"@, ext);
            }
        } else {
            lemma_css_names_from(s, i + 1, base, level, rep, out.push(s[i as int]), ext);
        }
    }
}

/// Every sub-resource that CSS sanitization extracts is paired with the local file name of its URL.
pub proof fn lemma_css_extracted_are_locally_named(
    s: Seq<char>,
    base: Seq<char>,
    level: LogLevel,
    rep: Option<Seq<char>>,
)
    ensures
        css_run(s, 0, base, level, rep, seq![], seq![]) matches Ok((o, e)) ==> forall|k: int|
            0 <= k < e.len() ==> locally_named(#[trigger] e[k]),
{
    lemma_css_names_from(s, 0, base, level, rep, seq![], seq![]);
}

/// The (URL, local name) pairs of a vector, by their views.
pub open spec fn pairs_view(v: Seq<(Url, String)>) -> Seq<(Seq<char>, Seq<char>)> {
    v.map_values(|p: (Url, String)| (p.0@, p.1@))
}

/// The view of a rule's replacement text.
pub open spec fn replacement_view(rule: RuleWithReplace<String>) -> Option<Seq<char>> {
    match rule.replacement() {
        Some(r) => Some(r@),
        None => None,
    }
}

/// Reads a (possibly quoted) CSS URL at `i`; gives the text and the position after it.
fn read_url_string(chars: &Vec<char>, i: usize, end: char) -> (res: (Vec<char>, usize))
    ensures
        (res.0@, res.1 as nat) == read_url_spec(chars@, i as nat, end),
{
    let n = chars.len();
    let j = skip_ws(chars, i);
    let quoted = j < n && (chars[j] == '"' || chars[j] == '\'');
    let delim: Option<char> = if quoted {
        Some(chars[j])
    } else {
        None
    };
    let mut k: usize = if quoted {
        j + 1
    } else {
        j
    };
    let ghost start = k;
    let mut result: Vec<char> = Vec::new();
    let mut previous_backslash = false;
    while k < n
        invariant_except_break
            n == chars@.len(),
            url_read_loop(chars@, start as nat, delim, end, false, seq![]) == url_read_loop(
                chars@,
                k as nat,
                delim,
                end,
                previous_backslash,
                result@,
            ),
        ensures
            url_read_loop(chars@, start as nat, delim, end, false, seq![]) == (result@, k as nat),
        decreases n - k,
    {
        let c = chars[k];
        if delim == Some(c) && !previous_backslash {
            k = k + 1;
            break;
        }
        if c == end && delim.is_none() && !previous_backslash {
            k = k + 1;
            break;
        }
        if c == '\\' {
            if previous_backslash {
                previous_backslash = false;
                result.push('\\');
            } else {
                previous_backslash = true;
            }
        } else {
            previous_backslash = false;
            result.push(c);
        }
        k = k + 1;
    }
    let k2 = skip_ws(chars, k);
    if quoted && k2 < n && chars[k2] == end {
        let k3 = skip_ws(chars, k2 + 1);
        (result, k3)
    } else {
        (result, k2)
    }
}

/// Whether the characters of `v` start with the text of `s`.
fn starts_with_str(v: &Vec<char>, s: &str) -> (res: bool)
    ensures
        res == seq_at(v@, 0, s@),
{
    chars_at_str(v, 0, s)
}

/// Rewrites the `@import` rule at `i`, extracting its URL; gives the position after the rule.
fn rewrite_import(
    chars: &Vec<char>,
    i: usize,
    base_url: &Url,
    output: &mut Vec<char>,
    extracted: &mut Vec<(Url, String)>,
    Ghost(level): Ghost<LogLevel>,
    Ghost(rep): Ghost<Option<Seq<char>>>,
) -> (next: usize)
    requires
        import_at(chars@, i as int),
    ensures
        next > i,
        css_run(chars@, i as nat, base_url@, level, rep, old(output)@, pairs_view(old(extracted)@))
            == css_run(chars@, next as nat, base_url@, level, rep, final(output)@, pairs_view(final(extracted)@)),
{
    let n = chars.len();
    let j = skip_ws(chars, i + 7);
    proof {
        lemma_import_url_ge(chars@, i as nat);
    }
    let (url, next) = if chars_at_str(chars, j, "url(") {
        proof {
            reveal_strlit("url(");
        }
        let (u, k) = read_url_string(chars, j + 4, ')');
        let mut m = k;
        while m < n && chars[m] != ';'
            invariant
                skip_to(chars@, m as nat, ';') == skip_to(chars@, k as nat, ';'),
                n == chars@.len(),
            decreases n - m,
        {
            m = m + 1;
        }
        proof {
            lemma_skip_to_ge(chars@, k as nat, ';');
        }
        assert(m == skip_to(chars@, k as nat, ';'));
        let after = if m < n {
            m + 1
        } else {
            m
        };
        (u, after)
    } else {
        read_url_string(chars, j, ';')
    };
    assert(url@ == import_url(chars@, i as nat).0);
    assert(next >= n || next as nat == import_url(chars@, i as nat).1);
    let url_clean = trim_chars(&url);
    if url_clean.len() > 0 {
        let clean_text = string_of(&url_clean);
        if let Some(resolved_url) = base_url.join(clean_text.as_str()) {
            let local_name = generate_local_filename(&resolved_url, "css");
            push_str(output, "@import \"");
            let name_chars = chars_of(local_name.as_str());
            push_chars(output, &name_chars);
            push_str(output, "\";");
            let ghost before = extracted@;
            extracted.push((resolved_url, local_name));
            assert(pairs_view(extracted@) =~= pairs_view(before).push((resolved_url@, local_name@)));
        }
    }
    next
}

/// Rewrites the `url(...)` reference at `i`; gives the position after it, or the refusal of
/// a dangerous URL by a rule at level `Error`.
fn rewrite_url_ref<L: Log>(
    chars: &Vec<char>,
    i: usize,
    base_url: &Url,
    logger: &L,
    rule: &RuleWithReplace<String>,
    output: &mut Vec<char>,
    extracted: &mut Vec<(Url, String)>,
) -> (res: Result<usize, SanitizerError>)
    requires
        seq_at(chars@, i as int, "url("@),
        !import_at(chars@, i as int),
    ensures
        match res {
            Ok(next) => next > i && css_run(
                chars@,
                i as nat,
                base_url@,
                rule.rule_level(),
                replacement_view(*rule),
                old(output)@,
                pairs_view(old(extracted)@),
            ) == css_run(
                chars@,
                next as nat,
                base_url@,
                rule.rule_level(),
                replacement_view(*rule),
                final(output)@,
                pairs_view(final(extracted)@),
            ),
            Err(e) => (e matches SanitizerError::DangerousCssConstruct(m) && css_run(
                chars@,
                i as nat,
                base_url@,
                rule.rule_level(),
                replacement_view(*rule),
                old(output)@,
                pairs_view(old(extracted)@),
            ) == Err::<(Seq<char>, Seq<(Seq<char>, Seq<char>)>), Seq<char>>(m@)),
        },
{
    proof {
        reveal_strlit("url(");
    }
    let n = chars.len();
    assert(i + 4 <= n);
    let (url, next) = read_url_string(chars, i + 4, ')');
    proof {
        lemma_read_url_ge(chars@, (i + 4) as nat, ')');
    }
    let url_clean = trim_chars(&url);
    if starts_with_str(&url_clean, "data:") || starts_with_str(&url_clean, "javascript:") {
        let clean_text = string_of(&url_clean);
        match rule.handle(logger, SanitizerError::DangerousCssConstruct(clean_text)) {
            Err(e) => {
                return Err(e);
            },
            Ok(Some(replace)) => {
                push_str(output, "url(\"");
                let rep_chars = chars_of(replace.as_str());
                push_chars(output, &rep_chars);
                push_str(output, "\")");
            },
            Ok(None) => {
                push_str(output, "url(");
                push_chars(output, &url);
                push_str(output, ")");
            },
        }
    } else {
        let clean_text = string_of(&url_clean);
        if let Some(resolved_url) = base_url.join(clean_text.as_str()) {
            let tail = match after_last_chars(&url_clean, '.') {
                Some(x) => x,
                None => url_clean,
            };
            let ext = string_of(&before_first_chars(&tail, '?'));
            let local_name = generate_local_filename(&resolved_url, ext.as_str());
            push_str(output, "url(\"");
            let name_chars = chars_of(local_name.as_str());
            push_chars(output, &name_chars);
            push_str(output, "\")");
            let ghost before = extracted@;
            extracted.push((resolved_url, local_name));
            assert(pairs_view(extracted@) =~= pairs_view(before).push((resolved_url@, local_name@)));
        } else {
            push_str(output, "url(\"\")");
        }
    }
    Ok(next)
}

/// Scans CSS content for @import and url(...) references, validates/rewrites them, and extracts them.
///
/// Returns the rewritten CSS, with references updated to local filenames, and the resolved
/// absolute URLs of the discovered sub-resources paired with their local filenames.
/// `data:` and `javascript:` URLs are handled by `rule`: replaced, kept, or (at level `Error`) refused.
pub fn sanitize<L: Log>(
    css: &str,
    base_url: &Url,
    logger: &L,
    rule: &RuleWithReplace<String>,
) -> (res: Result<(String, Vec<(Url, String)>), SanitizerError>)
    ensures
        match css_run(css@, 0, base_url@, rule.rule_level(), replacement_view(*rule), seq![], seq![]) {
            Ok((o, e)) => (res matches Ok((out, ext)) && out@ == o && pairs_view(ext@) == e),
            Err(u) => (res matches Err(SanitizerError::DangerousCssConstruct(m)) && m@ == u),
        },
{
    let chars = chars_of(css);
    let n = chars.len();
    let mut output: Vec<char> = Vec::new();
    let mut extracted: Vec<(Url, String)> = Vec::new();
    let mut i: usize = 0;
    let ghost level = rule.rule_level();
    let ghost rep = replacement_view(*rule);
    let ghost goal = css_run(chars@, 0, base_url@, level, rep, seq![], seq![]);
    assert(pairs_view(extracted@) =~= Seq::<(Seq<char>, Seq<char>)>::empty());
    while i < n
        invariant
            n == chars@.len(),
            chars@ == css@,
            level == rule.rule_level(),
            rep == replacement_view(*rule),
            goal == css_run(chars@, 0, base_url@, level, rep, seq![], seq![]),
            goal == css_run(chars@, i as nat, base_url@, level, rep, output@, pairs_view(extracted@)),
        decreases (if i < n { n - i } else { 0 }),
    {
        // Match @import
        if n - i > 7 && chars_at_str(&chars, i, "@import") && (is_whitespace(chars[i + 7])
            || chars[i + 7] == '(') {
            i = rewrite_import(&chars, i, base_url, &mut output, &mut extracted, Ghost(level), Ghost(rep));
            continue;
        }
        // Match url(
        if chars_at_str(&chars, i, "url(") {
            match rewrite_url_ref(&chars, i, base_url, logger, rule, &mut output, &mut extracted) {
                Ok(next) => {
                    i = next;
                },
                Err(e) => {
                    return Err(e);
                },
            }
            continue;
        }
        output.push(chars[i]);
        i = i + 1;
    }
    Ok((string_of(&output), extracted))
}

} // verus!
