use vstd::prelude::*;

use crate::resources::occurs_at;
use crate::text::{
    ascii_lowercase, before_first, before_first_chars, chars_eq_str, chars_of, is_ascii_text,
    is_ws, string_of, to_lowercase, trim_chars, trim_end_seq, trim_seq, trim_start_seq,
    unicode_lowercase,
};
use crate::url::ascii_lower_char;

verus! {

/// A MIME type that can be recognized by its magic bytes.
#[derive(Debug, PartialEq, Eq, Clone, Copy, Structural)]
pub enum KnownMime {
    Png,
    Jpeg,
    Gif,
    Webp,
    Pdf,
}

/// The MIME type text of each known type.
pub open spec fn known_mime_name(m: KnownMime) -> Seq<char> {
    match m {
        KnownMime::Png => "image/png"@,
        KnownMime::Jpeg => "image/jpeg"@,
        KnownMime::Gif => "image/gif"@,
        KnownMime::Webp => "image/webp"@,
        KnownMime::Pdf => "application/pdf"@,
    }
}

/// The known type that a MIME type text names, if any.
pub open spec fn parse_known_mime(s: Seq<char>) -> Option<KnownMime> {
    if s == "image/png"@ {
        Some(KnownMime::Png)
    } else if s == "image/jpeg"@ {
        Some(KnownMime::Jpeg)
    } else if s == "image/gif"@ {
        Some(KnownMime::Gif)
    } else if s == "image/webp"@ {
        Some(KnownMime::Webp)
    } else if s == "application/pdf"@ {
        Some(KnownMime::Pdf)
    } else {
        None
    }
}

impl KnownMime {
    pub fn parse(s: &str) -> (res: Option<Self>)
        ensures
            res == parse_known_mime(s@),
    {
        let v = chars_of(s);
        if chars_eq_str(&v, "image/png") {
            Some(KnownMime::Png)
        } else if chars_eq_str(&v, "image/jpeg") {
            Some(KnownMime::Jpeg)
        } else if chars_eq_str(&v, "image/gif") {
            Some(KnownMime::Gif)
        } else if chars_eq_str(&v, "image/webp") {
            Some(KnownMime::Webp)
        } else if chars_eq_str(&v, "application/pdf") {
            Some(KnownMime::Pdf)
        } else {
            None
        }
    }

    /// The MIME type text of this type.
    pub fn as_str(&self) -> (res: &'static str)
        ensures
            res@ == known_mime_name(*self),
    {
        match self {
            KnownMime::Png => "image/png",
            KnownMime::Jpeg => "image/jpeg",
            KnownMime::Gif => "image/gif",
            KnownMime::Webp => "image/webp",
            KnownMime::Pdf => "application/pdf",
        }
    }
}

/// The type that magic bytes at the start of `d` give away.
pub open spec fn sniff_spec(d: Seq<u8>) -> Option<KnownMime> {
    if occurs_at(d, 0, seq![0x89u8, 0x50u8, 0x4Eu8, 0x47u8, 0x0Du8, 0x0Au8, 0x1Au8, 0x0Au8]) {
        Some(KnownMime::Png)
    } else if occurs_at(d, 0, seq![0xFFu8, 0xD8u8]) {
        Some(KnownMime::Jpeg)
    } else if occurs_at(d, 0, seq![0x47u8, 0x49u8, 0x46u8, 0x38u8, 0x37u8, 0x61u8]) || occurs_at(
        d,
        0,
        seq![0x47u8, 0x49u8, 0x46u8, 0x38u8, 0x39u8, 0x61u8],
    ) {
        Some(KnownMime::Gif)
    } else if d.len() >= 12 && occurs_at(d, 0, seq![0x52u8, 0x49u8, 0x46u8, 0x46u8]) && occurs_at(
        d,
        8,
        seq![0x57u8, 0x45u8, 0x42u8, 0x50u8],
    ) {
        Some(KnownMime::Webp)
    } else if occurs_at(d, 0, seq![0x25u8, 0x50u8, 0x44u8, 0x46u8]) {
        Some(KnownMime::Pdf)
    } else {
        None
    }
}

proof fn lemma_occurs_extends(d: Seq<u8>, e: Seq<u8>, i: int, p: Seq<u8>)
    requires
        occurs_at(d, i, p),
    ensures
        occurs_at(d + e, i, p),
{
    assert((d + e).subrange(i, i + p.len()) =~= d.subrange(i, i + p.len()));
}

/// Bytes appended after a recognized signature do not change what is sniffed: a type that the
/// start of `d` gives away is kept for `d` followed by anything.
pub proof fn lemma_sniff_keeps_type(d: Seq<u8>, e: Seq<u8>)
    requires
        sniff_spec(d) is Some,
    ensures
        sniff_spec(d + e) == sniff_spec(d),
{
    let de = d + e;
    assert(d.len() >= 1);
    assert(de[0] == d[0]);
    let png = seq![0x89u8, 0x50u8, 0x4Eu8, 0x47u8, 0x0Du8, 0x0Au8, 0x1Au8, 0x0Au8];
    let jpeg = seq![0xFFu8, 0xD8u8];
    let gif7 = seq![0x47u8, 0x49u8, 0x46u8, 0x38u8, 0x37u8, 0x61u8];
    let gif9 = seq![0x47u8, 0x49u8, 0x46u8, 0x38u8, 0x39u8, 0x61u8];
    let riff = seq![0x52u8, 0x49u8, 0x46u8, 0x46u8];
    let webp = seq![0x57u8, 0x45u8, 0x42u8, 0x50u8];
    let pdf = seq![0x25u8, 0x50u8, 0x44u8, 0x46u8];
    // each signature is told apart from the earlier ones by its first byte
    if occurs_at(d, 0, png) {
        lemma_occurs_extends(d, e, 0, png);
    } else if occurs_at(d, 0, jpeg) {
        assert(d.subrange(0, 2)[0] == d[0]);
        lemma_occurs_extends(d, e, 0, jpeg);
        assert(!occurs_at(de, 0, png)) by {
            if occurs_at(de, 0, png) {
                assert(de.subrange(0, 8)[0] == de[0]);
            }
        }
    } else if occurs_at(d, 0, gif7) || occurs_at(d, 0, gif9) {
        if occurs_at(d, 0, gif7) {
            assert(d.subrange(0, 6)[0] == d[0]);
            lemma_occurs_extends(d, e, 0, gif7);
        } else {
            assert(d.subrange(0, 6)[0] == d[0]);
            lemma_occurs_extends(d, e, 0, gif9);
        }
        assert(!occurs_at(de, 0, png)) by {
            if occurs_at(de, 0, png) {
                assert(de.subrange(0, 8)[0] == de[0]);
            }
        }
        assert(!occurs_at(de, 0, jpeg)) by {
            if occurs_at(de, 0, jpeg) {
                assert(de.subrange(0, 2)[0] == de[0]);
            }
        }
    } else if d.len() >= 12 && occurs_at(d, 0, riff) && occurs_at(d, 8, webp) {
        assert(d.subrange(0, 4)[0] == d[0]);
        lemma_occurs_extends(d, e, 0, riff);
        lemma_occurs_extends(d, e, 8, webp);
        assert(!occurs_at(de, 0, png)) by {
            if occurs_at(de, 0, png) {
                assert(de.subrange(0, 8)[0] == de[0]);
            }
        }
        assert(!occurs_at(de, 0, jpeg)) by {
            if occurs_at(de, 0, jpeg) {
                assert(de.subrange(0, 2)[0] == de[0]);
            }
        }
        assert(!occurs_at(de, 0, gif7) && !occurs_at(de, 0, gif9)) by {
            if occurs_at(de, 0, gif7) || occurs_at(de, 0, gif9) {
                assert(de.subrange(0, 6)[0] == de[0]);
            }
        }
    } else {
        assert(occurs_at(d, 0, pdf));
        assert(d.subrange(0, 4)[0] == d[0]);
        lemma_occurs_extends(d, e, 0, pdf);
        assert(!occurs_at(de, 0, png)) by {
            if occurs_at(de, 0, png) {
                assert(de.subrange(0, 8)[0] == de[0]);
            }
        }
        assert(!occurs_at(de, 0, jpeg)) by {
            if occurs_at(de, 0, jpeg) {
                assert(de.subrange(0, 2)[0] == de[0]);
            }
        }
        assert(!occurs_at(de, 0, gif7) && !occurs_at(de, 0, gif9)) by {
            if occurs_at(de, 0, gif7) || occurs_at(de, 0, gif9) {
                assert(de.subrange(0, 6)[0] == de[0]);
            }
        }
        assert(!occurs_at(de, 0, riff)) by {
            if occurs_at(de, 0, riff) {
                assert(de.subrange(0, 4)[0] == de[0]);
            }
        }
    }
}

/// Each known type has its signature: data that begins with the PNG signature sniffs as PNG,
/// with `FF D8` as JPEG, with `GIF87a` or `GIF89a` as GIF, with `RIFF`, any four bytes and
/// `WEBP` as WebP, and with `%PDF` as PDF, whatever follows.
pub proof fn lemma_signatures_sniff(r: Seq<u8>, a: u8, b: u8, c: u8, e: u8)
    ensures
        sniff_spec(seq![0x89u8, 0x50u8, 0x4Eu8, 0x47u8, 0x0Du8, 0x0Au8, 0x1Au8, 0x0Au8] + r)
            == Some(KnownMime::Png),
        sniff_spec(seq![0xFFu8, 0xD8u8] + r) == Some(KnownMime::Jpeg),
        sniff_spec(seq![0x47u8, 0x49u8, 0x46u8, 0x38u8, 0x37u8, 0x61u8] + r) == Some(KnownMime::Gif),
        sniff_spec(seq![0x47u8, 0x49u8, 0x46u8, 0x38u8, 0x39u8, 0x61u8] + r) == Some(KnownMime::Gif),
        sniff_spec(seq![0x52u8, 0x49u8, 0x46u8, 0x46u8, a, b, c, e, 0x57u8, 0x45u8, 0x42u8, 0x50u8] + r)
            == Some(KnownMime::Webp),
        sniff_spec(seq![0x25u8, 0x50u8, 0x44u8, 0x46u8] + r) == Some(KnownMime::Pdf),
{
    let png = seq![0x89u8, 0x50u8, 0x4Eu8, 0x47u8, 0x0Du8, 0x0Au8, 0x1Au8, 0x0Au8];
    let jpeg = seq![0xFFu8, 0xD8u8];
    let gif7 = seq![0x47u8, 0x49u8, 0x46u8, 0x38u8, 0x37u8, 0x61u8];
    let gif9 = seq![0x47u8, 0x49u8, 0x46u8, 0x38u8, 0x39u8, 0x61u8];
    let riff = seq![0x52u8, 0x49u8, 0x46u8, 0x46u8];
    let webp = seq![0x57u8, 0x45u8, 0x42u8, 0x50u8];
    let pdf = seq![0x25u8, 0x50u8, 0x44u8, 0x46u8];
    let d1 = png + r;
    assert(d1.subrange(0, 8) =~= png);
    let d2 = jpeg + r;
    assert(d2.subrange(0, 2) =~= jpeg);
    assert(!occurs_at(d2, 0, png)) by {
        if occurs_at(d2, 0, png) {
            assert(d2.subrange(0, 8)[0] == d2[0]);
        }
    }
    let d3 = gif7 + r;
    assert(d3.subrange(0, 6) =~= gif7);
    assert(!occurs_at(d3, 0, png) && !occurs_at(d3, 0, jpeg)) by {
        if occurs_at(d3, 0, png) {
            assert(d3.subrange(0, 8)[0] == d3[0]);
        }
        if occurs_at(d3, 0, jpeg) {
            assert(d3.subrange(0, 2)[0] == d3[0]);
        }
    }
    let d4 = gif9 + r;
    assert(d4.subrange(0, 6) =~= gif9);
    assert(!occurs_at(d4, 0, png) && !occurs_at(d4, 0, jpeg)) by {
        if occurs_at(d4, 0, png) {
            assert(d4.subrange(0, 8)[0] == d4[0]);
        }
        if occurs_at(d4, 0, jpeg) {
            assert(d4.subrange(0, 2)[0] == d4[0]);
        }
    }
    let w = seq![0x52u8, 0x49u8, 0x46u8, 0x46u8, a, b, c, e, 0x57u8, 0x45u8, 0x42u8, 0x50u8];
    let d5 = w + r;
    assert(d5.subrange(0, 4) =~= riff);
    assert(d5.subrange(8, 12) =~= webp);
    assert(!occurs_at(d5, 0, png) && !occurs_at(d5, 0, jpeg) && !occurs_at(d5, 0, gif7)
        && !occurs_at(d5, 0, gif9)) by {
        if occurs_at(d5, 0, png) {
            assert(d5.subrange(0, 8)[0] == d5[0]);
        }
        if occurs_at(d5, 0, jpeg) {
            assert(d5.subrange(0, 2)[0] == d5[0]);
        }
        if occurs_at(d5, 0, gif7) || occurs_at(d5, 0, gif9) {
            assert(d5.subrange(0, 6)[0] == d5[0]);
        }
    }
    let d6 = pdf + r;
    assert(d6.subrange(0, 4) =~= pdf);
    assert(!occurs_at(d6, 0, png) && !occurs_at(d6, 0, jpeg) && !occurs_at(d6, 0, gif7)
        && !occurs_at(d6, 0, gif9) && !occurs_at(d6, 0, riff)) by {
        if occurs_at(d6, 0, png) {
            assert(d6.subrange(0, 8)[0] == d6[0]);
        }
        if occurs_at(d6, 0, jpeg) {
            assert(d6.subrange(0, 2)[0] == d6[0]);
        }
        if occurs_at(d6, 0, gif7) || occurs_at(d6, 0, gif9) {
            assert(d6.subrange(0, 6)[0] == d6[0]);
        }
        if occurs_at(d6, 0, riff) {
            assert(d6.subrange(0, 4)[0] == d6[0]);
        }
    }
}

/// Sniffs the mime type of a byte buffer using magic bytes.
///
/// Returns `Some(...)` if a signature is matched, otherwise `None`.
pub fn sniff(data: &[u8]) -> (res: Option<KnownMime>)
    ensures
        res == sniff_spec(data@),
{
    let png: [u8; 8] = [0x89, 0x50, 0x4E, 0x47, 0x0D, 0x0A, 0x1A, 0x0A];
    let jpeg: [u8; 2] = [0xFF, 0xD8];
    let gif7: [u8; 6] = [0x47, 0x49, 0x46, 0x38, 0x37, 0x61];
    let gif9: [u8; 6] = [0x47, 0x49, 0x46, 0x38, 0x39, 0x61];
    let riff: [u8; 4] = [0x52, 0x49, 0x46, 0x46];
    let webp: [u8; 4] = [0x57, 0x45, 0x42, 0x50];
    let pdf: [u8; 4] = [0x25, 0x50, 0x44, 0x46];
    assert(png@ == seq![0x89u8, 0x50u8, 0x4Eu8, 0x47u8, 0x0Du8, 0x0Au8, 0x1Au8, 0x0Au8]);
    assert(jpeg@ == seq![0xFFu8, 0xD8u8]);
    assert(gif7@ == seq![0x47u8, 0x49u8, 0x46u8, 0x38u8, 0x37u8, 0x61u8]);
    assert(gif9@ == seq![0x47u8, 0x49u8, 0x46u8, 0x38u8, 0x39u8, 0x61u8]);
    assert(riff@ == seq![0x52u8, 0x49u8, 0x46u8, 0x46u8]);
    assert(webp@ == seq![0x57u8, 0x45u8, 0x42u8, 0x50u8]);
    assert(pdf@ == seq![0x25u8, 0x50u8, 0x44u8, 0x46u8]);
    if crate::resources::bytes_at(data, 0, &png) {
        Some(KnownMime::Png)
    } else if crate::resources::bytes_at(data, 0, &jpeg) {
        Some(KnownMime::Jpeg)
    } else if crate::resources::bytes_at(data, 0, &gif7) || crate::resources::bytes_at(data, 0, &gif9) {
        Some(KnownMime::Gif)
    } else if data.len() >= 12 && crate::resources::bytes_at(data, 0, &riff)
        && crate::resources::bytes_at(data, 8, &webp) {
        Some(KnownMime::Webp)
    } else if crate::resources::bytes_at(data, 0, &pdf) {
        Some(KnownMime::Pdf)
    } else {
        None
    }
}

/// The normalized MIME type of a `Content-Type` header: the part before the first `;`,
/// trimmed and lowercased, with `image/jpg` read as `image/jpeg`.
pub open spec fn clean_spec(content_type: Seq<char>) -> Seq<char> {
    let c = unicode_lowercase(trim_seq(before_first(content_type, ';')));
    if c == "image/jpg"@ {
        "image/jpeg"@
    } else {
        c
    }
}

/// `clean_spec` on an ASCII header, where lowercasing is ASCII lowercasing.
pub open spec fn clean_ascii(content_type: Seq<char>) -> Seq<char> {
    let c = ascii_lowercase(trim_seq(before_first(content_type, ';')));
    if c == "image/jpg"@ {
        "image/jpeg"@
    } else {
        c
    }
}

/// Every character of `s` is ASCII and none is `;`.
pub open spec fn ascii_without_semicolon(s: Seq<char>) -> bool {
    forall|i: int| 0 <= i < s.len() ==> #[trigger] s[i] <= '\u{7f}' && s[i] != ';'
}

proof fn lemma_before_first_ascii(s: Seq<char>)
    requires
        is_ascii_text(s),
    ensures
        ascii_without_semicolon(before_first(s, ';')),
    decreases s.len(),
{
    if s.len() > 0 && s[0] != ';' {
        let t = s.drop_first();
        assert forall|i: int| 0 <= i < t.len() implies #[trigger] t[i] <= '\u{7f}' by {
            assert(t[i] == s[i + 1]);
        }
        lemma_before_first_ascii(t);
        let b = before_first(s, ';');
        assert forall|i: int| 0 <= i < b.len() implies #[trigger] b[i] <= '\u{7f}' && b[i] != ';' by {
            if i > 0 {
                assert(b[i] == before_first(t, ';')[i - 1]);
            }
        }
    }
}

proof fn lemma_before_first_without(s: Seq<char>)
    requires
        ascii_without_semicolon(s),
    ensures
        before_first(s, ';') == s,
    decreases s.len(),
{
    if s.len() > 0 {
        let t = s.drop_first();
        assert forall|i: int| 0 <= i < t.len() implies #[trigger] t[i] <= '\u{7f}' && t[i] != ';' by {
            assert(t[i] == s[i + 1]);
        }
        lemma_before_first_without(t);
        assert(s[0] != ';');
        assert(seq![s[0]] + t =~= s);
    }
}

proof fn lemma_trim_start_keeps(s: Seq<char>)
    requires
        ascii_without_semicolon(s),
    ensures
        ascii_without_semicolon(trim_start_seq(s)),
        trim_start_seq(s).len() > 0 ==> !is_ws(trim_start_seq(s)[0]),
    decreases s.len(),
{
    if s.len() > 0 && is_ws(s[0]) {
        let t = s.drop_first();
        assert forall|i: int| 0 <= i < t.len() implies #[trigger] t[i] <= '\u{7f}' && t[i] != ';' by {
            assert(t[i] == s[i + 1]);
        }
        lemma_trim_start_keeps(t);
    }
}

proof fn lemma_trim_end_keeps(s: Seq<char>)
    requires
        ascii_without_semicolon(s),
    ensures
        ascii_without_semicolon(trim_end_seq(s)),
        trim_end_seq(s).len() > 0 ==> !is_ws(trim_end_seq(s).last()),
        s.len() > 0 && !is_ws(s[0]) ==> trim_end_seq(s).len() > 0 && trim_end_seq(s)[0] == s[0],
    decreases s.len(),
{
    if s.len() > 0 && is_ws(s.last()) {
        let t = s.drop_last();
        assert forall|i: int| 0 <= i < t.len() implies #[trigger] t[i] <= '\u{7f}' && t[i] != ';' by {
            assert(t[i] == s[i]);
        }
        lemma_trim_end_keeps(t);
    }
}

proof fn lemma_trim_fixed(t: Seq<char>)
    requires
        t.len() > 0 ==> !is_ws(t[0]) && !is_ws(t.last()),
    ensures
        trim_seq(t) == t,
{
}

/// On an ASCII header, cleaning gives ASCII text with no `;` and no surrounding whitespace, and
/// cleaning it again changes nothing.
pub proof fn lemma_clean_ascii_idempotent(s: Seq<char>)
    requires
        is_ascii_text(s),
    ensures
        is_ascii_text(clean_ascii(s)),
        clean_ascii(clean_ascii(s)) == clean_ascii(s),
{
    reveal_strlit("image/jpg");
    reveal_strlit("image/jpeg");
    let b = before_first(s, ';');
    lemma_before_first_ascii(s);
    lemma_trim_start_keeps(b);
    let ts = trim_start_seq(b);
    lemma_trim_end_keeps(ts);
    let t = trim_seq(b);
    assert(t == trim_end_seq(ts));
    let l = ascii_lowercase(t);
    assert forall|i: int| 0 <= i < l.len() implies #[trigger] l[i] <= '\u{7f}' && l[i] != ';'
        && (is_ws(l[i]) == is_ws(t[i])) && ascii_lower_char(l[i]) == l[i] by {
        assert(l[i] == ascii_lower_char(t[i]));
    }
    let r = clean_ascii(s);
    assert(ascii_without_semicolon(r)) by {
        if r != l {
            assert(r == "image/jpeg"@);
        }
    }
    assert(r.len() > 0 ==> !is_ws(r[0]) && !is_ws(r.last())) by {
        if r == l && l.len() > 0 {
            assert(l[0] == ascii_lower_char(t[0]));
            assert(l.last() == ascii_lower_char(t.last()));
        }
    }
    lemma_before_first_without(r);
    lemma_trim_fixed(r);
    assert(ascii_lowercase(r) =~= r) by {
        if r != l {
            assert(r == "image/jpeg"@);
        }
    }
    assert(r != "image/jpg"@) by {
        if r == l && l == "image/jpg"@ {
            assert(r == "image/jpeg"@);
        }
    }
}

/// Extracts the MIME type from a `Content-Type` header and normalizes it
pub fn clean(content_type: &str) -> (res: String)
    ensures
        res@ == clean_spec(content_type@),
        is_ascii_text(content_type@) ==> res@ == clean_ascii(content_type@),
{
    let v = chars_of(content_type);
    let head = before_first_chars(&v, ';');
    let trimmed = string_of(&trim_chars(&head));
    proof {
        if is_ascii_text(content_type@) {
            lemma_before_first_ascii(content_type@);
            lemma_trim_start_keeps(head@);
            lemma_trim_end_keeps(trim_start_seq(head@));
        }
    }
    let lower = to_lowercase(trimmed.as_str());
    let lv = chars_of(lower.as_str());
    if chars_eq_str(&lv, "image/jpg") {
        "image/jpeg".to_string()
    } else {
        lower
    }
}

/// Whether a declared MIME type agrees with the sniffed one: a declared type that is a
/// known type must be the sniffed type; any other declaration is accepted.
pub open spec fn validate_spec(declared: Option<Seq<char>>, sniffed: Option<KnownMime>) -> bool {
    match declared {
        Some(d) => match parse_known_mime(d) {
            Some(k) => sniffed == Some(k),
            None => true,
        },
        None => true,
    }
}

/// A declared type agrees with what was sniffed when it names that type, and disagrees when it
/// names another known type.
pub proof fn lemma_declared_type_validates()
    ensures
        validate_spec(Some("image/png"@), Some(KnownMime::Png)),
        validate_spec(Some("image/jpeg"@), Some(KnownMime::Jpeg)),
        validate_spec(Some("image/gif"@), Some(KnownMime::Gif)),
        validate_spec(Some("image/webp"@), Some(KnownMime::Webp)),
        validate_spec(Some("application/pdf"@), Some(KnownMime::Pdf)),
        !validate_spec(Some("image/webp"@), None),
        !validate_spec(Some("image/png"@), Some(KnownMime::Jpeg)),
{
    reveal_strlit("image/png");
    reveal_strlit("image/jpeg");
    reveal_strlit("image/gif");
    reveal_strlit("image/webp");
    reveal_strlit("application/pdf");
    assert("image/jpeg"@[6] != "image/png"@[6]);
    assert("image/gif"@[6] != "image/png"@[6]);
    assert("image/webp"@[6] != "image/jpeg"@[6]);
    assert("image/gif"@.len() != "image/jpeg"@.len());
    assert("image/webp"@.len() != "image/png"@.len());
    assert("image/webp"@.len() != "image/gif"@.len());
}

/// Validates that the declared MIME type matches the sniffed MIME type.
pub fn validate(declared: Option<&str>, sniffed: Option<KnownMime>) -> (res: bool)
    ensures
        res == validate_spec(
            match declared {
                Some(d) => Some(d@),
                None => None,
            },
            sniffed,
        ),
{
    if let Some(d) = declared {
        if let Some(k) = KnownMime::parse(d) {
            return sniffed == Some(k);
        }
    }
    true
}

} // verus!
