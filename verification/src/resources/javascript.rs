use vstd::prelude::*;

use crate::errors::SanitizerError;
use crate::text::{chars_at_str, chars_of, lemma_skip_ws_shift, seq_at, skip_ws, skip_ws_from};

verus! {

/// The dangerous JavaScript constructs that the scan looks for.
#[derive(Debug, Clone, Copy, PartialEq, Eq, Structural)]
pub enum JsConstruct {
    /// `eval` followed (after optional whitespace) by `(`.
    Eval,
    /// `document`, optional whitespace, `.`, optional whitespace, `write`.
    DocumentWrite,
}

impl JsConstruct {
    /// The name under which the construct is reported.
    pub open spec fn label(self) -> Seq<char> {
        match self {
            JsConstruct::Eval => "eval(...)"@,
            JsConstruct::DocumentWrite => "document.write(...)"@,
        }
    }
}

/// `eval` starts at `p`, followed after optional whitespace by `(`.
pub open spec fn eval_at(s: Seq<char>, p: int) -> bool {
    0 <= p < s.len() && s[p] == 'e' && seq_at(s, p + 1, "val"@) && {
        let q = skip_ws_from(s, (p + 4) as nat);
        q < s.len() && s[q as int] == '('
    }
}

/// `document . write` (with optional whitespace around the dot) starts at `p`.
pub open spec fn document_write_at(s: Seq<char>, p: int) -> bool {
    0 <= p < s.len() && s[p] == 'd' && seq_at(s, p + 1, "ocument"@) && {
        let q = skip_ws_from(s, (p + 8) as nat);
        q < s.len() && s[q as int] == '.' && seq_at(s, skip_ws_from(s, q + 1) as int, "write"@)
    }
}

/// The first dangerous construct at or after `p`.
pub open spec fn js_scan(s: Seq<char>, p: nat) -> Option<JsConstruct>
    decreases s.len() - p,
{
    if p >= s.len() {
        None
    } else if eval_at(s, p as int) {
        Some(JsConstruct::Eval)
    } else if document_write_at(s, p as int) {
        Some(JsConstruct::DocumentWrite)
    } else {
        js_scan(s, p + 1)
    }
}

/// The first dangerous construct in the characters of `v`, if any.
pub fn find_dangerous_js(v: &Vec<char>) -> (res: Option<JsConstruct>)
    ensures
        res == js_scan(v@, 0),
{
    proof {
        reveal_strlit("val");
        reveal_strlit("ocument");
        reveal_strlit("write");
    }
    let n = v.len();
    let mut p: usize = 0;
    while p < n
        invariant
            n == v@.len(),
            p <= n,
            js_scan(v@, p as nat) == js_scan(v@, 0),
        decreases n - p,
    {
        proof {
            reveal_strlit("val");
            reveal_strlit("ocument");
            reveal_strlit("write");
        }
        if v[p] == 'e' && chars_at_str(v, p + 1, "val") {
            let q = skip_ws(v, p + 4);
            if q < n && v[q] == '(' {
                return Some(JsConstruct::Eval);
            }
        }
        if v[p] == 'd' && chars_at_str(v, p + 1, "ocument") {
            let q = skip_ws(v, p + 8);
            if q < n && v[q] == '.' {
                let r = skip_ws(v, q + 1);
                if chars_at_str(v, r, "write") {
                    return Some(JsConstruct::DocumentWrite);
                }
            }
        }
        p = p + 1;
    }
    None
}

/// Scans JS file for dangerous constructs (eval, document.write).
///
/// Returns `Ok` if no dangerous keywords are found, otherwise an `Err` naming the first one found.
pub fn sanitize(content: &str) -> (res: Result<(), SanitizerError>)
    ensures
        match js_scan(content@, 0) {
            None => res is Ok,
            Some(k) => res matches Err(SanitizerError::DangerousJsConstruct(m)) && m@ == k.label(),
        },
{
    let v = chars_of(content);
    match find_dangerous_js(&v) {
        None => Ok(()),
        Some(JsConstruct::Eval) => Err(SanitizerError::DangerousJsConstruct("eval(...)".to_string())),
        Some(JsConstruct::DocumentWrite) => Err(
            SanitizerError::DangerousJsConstruct("document.write(...)".to_string()),
        ),
    }
}

proof fn lemma_js_scan_exists(s: Seq<char>, p: nat)
    ensures
        js_scan(s, p) is Some <==> exists|q: int| p <= q && (eval_at(s, q) || document_write_at(s, q)),
    decreases s.len() - p,
{
    if p < s.len() {
        lemma_js_scan_exists(s, p + 1);
        if exists|q: int| p <= q && (eval_at(s, q) || document_write_at(s, q)) {
            let q = choose|q: int| p <= q && (eval_at(s, q) || document_write_at(s, q));
            if q > p {
                assert(p + 1 <= q);
            }
        }
    }
}

/// A script that contains a dangerous construct is refused wherever that text stands:
/// surrounding it by any other text keeps it refused.
pub proof fn lemma_js_refusal_survives_context(x: Seq<char>, a: Seq<char>, y: Seq<char>)
    requires
        js_scan(a, 0) is Some,
    ensures
        js_scan(x + a + y, 0) is Some,
{
    reveal_strlit("val");
    reveal_strlit("ocument");
    reveal_strlit("write");
    let s = x + a + y;
    lemma_js_scan_exists(a, 0);
    lemma_js_scan_exists(s, 0);
    let q = choose|q: int| 0 <= q && (eval_at(a, q) || document_write_at(a, q));
    let z = x.len() + q;
    assert forall|i: int| 0 <= i < a.len() implies s[x.len() + i] == a[i] by {}
    if eval_at(a, q) {
        lemma_skip_ws_shift(x, a, y, (q + 4) as nat);
        assert(s.subrange(z + 1, z + 4) =~= a.subrange(q + 1, q + 4));
        assert(seq_at(s, z + 1, "val"@));
        assert(eval_at(s, z));
    } else {
        let q1 = skip_ws_from(a, (q + 8) as nat);
        lemma_skip_ws_shift(x, a, y, (q + 8) as nat);
        let r = skip_ws_from(a, q1 + 1);
        assert(r + 5 <= a.len());
        lemma_skip_ws_shift(x, a, y, q1 + 1);
        assert(s.subrange(z + 1, z + 8) =~= a.subrange(q + 1, q + 8));
        assert(s.subrange(x.len() + r as int, x.len() + r + 5 as int) =~= a.subrange(r as int, r + 5 as int));
        assert(seq_at(s, z + 1, "ocument"@));
        assert(seq_at(s, x.len() + r as int, "write"@));
        assert(document_write_at(s, z));
    }
}

} // verus!
