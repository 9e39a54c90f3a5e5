use vstd::prelude::*;

use crate::errors::SanitizerError;
use crate::text::{
    after_last, after_last_chars, chars_of, filter_alnum, filter_alnum_chars, hex16, hex_digit,
    hex_digits, push_chars, push_str, string_of,
};
use crate::url::{url_path, Url};
use std::hash::BuildHasher;

pub mod css;
pub mod javascript;
pub mod mime;

verus! {

/// The bytes of `d` from `i` to its end.
pub open spec fn tail_from(d: Seq<u8>, i: int) -> Seq<u8> {
    d.subrange(i, d.len() as int)
}

/// Big-endian value of the two bytes at `i` and `i + 1`.
pub open spec fn be16_at(d: Seq<u8>, i: int) -> nat {
    (d[i] as nat) * 256 + (d[i + 1] as nat)
}

/// What remains of a JPEG stream from position `i` once every APP1 segment is dropped.
pub open spec fn jpeg_body(d: Seq<u8>, i: nat) -> Seq<u8>
    decreases d.len() - i,
{
    if i >= d.len() {
        seq![]
    } else if d[i as int] == 0xFF {
        if i + 1 >= d.len() {
            seq![0xFFu8]
        } else {
            let m = d[i + 1 as int];
            if m == 0x00 {
                seq![0xFFu8, 0x00u8] + jpeg_body(d, i + 2)
            } else if m == 0xD9 {
                seq![0xFFu8, 0xD9u8]
            } else if 0xD0 <= m <= 0xD7 {
                seq![0xFFu8, m] + jpeg_body(d, i + 2)
            } else if i + 3 >= d.len() {
                tail_from(d, i as int)
            } else {
                let len = be16_at(d, i + 2 as int);
                if i + 2 + len > d.len() {
                    tail_from(d, i as int)
                } else if m == 0xE1 {
                    jpeg_body(d, i + 2 + len)
                } else {
                    d.subrange(i as int, (i + 2 + len) as int) + jpeg_body(d, i + 2 + len)
                }
            }
        }
    } else {
        seq![d[i as int]] + jpeg_body(d, i + 1)
    }
}

/// A JPEG stream with its APP1 (EXIF) segments removed; other data is returned unchanged.
pub open spec fn strip_jpeg_spec(d: Seq<u8>) -> Seq<u8> {
    if d.len() < 2 || d[0] != 0xFF || d[1] != 0xD8 {
        d
    } else {
        seq![0xFFu8, 0xD8u8] + jpeg_body(d, 2)
    }
}

/// Copies `src[from..to]` onto the end of `out`.
pub fn extend_range(out: &mut Vec<u8>, src: &[u8], from: usize, to: usize)
    requires
        from <= to <= src@.len(),
    ensures
        final(out)@ == old(out)@ + src@.subrange(from as int, to as int),
{
    let mut k = from;
    while k < to
        invariant
            from <= k <= to <= src@.len(),
            out@ == old(out)@ + src@.subrange(from as int, k as int),
        decreases to - k,
    {
        out.push(src[k]);
        k = k + 1;
        assert(src@.subrange(from as int, k as int) == src@.subrange(from as int, k - 1) + seq![src@[k - 1]]);
    }
}

/// Strips EXIF/metadata segment (APP1 0xFFE1) from JPEG files.
///
/// Returns a new vector with all APP1 (`0xFFE1`) metadata segments removed;
/// data that does not start with the JPEG marker is returned unchanged.
pub fn strip_jpeg_metadata(data: &[u8]) -> (res: Vec<u8>)
    ensures
        res@ == strip_jpeg_spec(data@),
{
    let n = data.len();
    let mut output: Vec<u8> = Vec::new();
    if n < 2 || data[0] != 0xFF || data[1] != 0xD8 {
        extend_range(&mut output, data, 0, n);
        assert(data@.subrange(0, n as int) == data@);
        return output;
    }
    output.push(0xFF);
    output.push(0xD8);
    let mut i: usize = 2;
    while i < n
        invariant
            n == data@.len(),
            2 <= i,
            data@.len() >= 2 && data@[0] == 0xFF && data@[1] == 0xD8,
            output@ + jpeg_body(data@, i as nat) == strip_jpeg_spec(data@),
        decreases n - i,
    {
        if data[i] == 0xFF {
            if i + 1 >= n {
                output.push(0xFF);
                return output;
            }
            let marker = data[i + 1];
            if marker == 0x00 {
                output.push(0xFF);
                output.push(0x00);
                assert(output@ + jpeg_body(data@, (i + 2) as nat) == strip_jpeg_spec(data@));
                i = i + 2;
                continue;
            }
            if marker == 0xD9 {
                output.push(0xFF);
                output.push(0xD9);
                return output;
            }
            if 0xD0 <= marker && marker <= 0xD7 {
                output.push(0xFF);
                output.push(marker);
                assert(output@ + jpeg_body(data@, (i + 2) as nat) == strip_jpeg_spec(data@));
                i = i + 2;
                continue;
            }
            if n - i <= 3 {
                extend_range(&mut output, data, i, n);
                return output;
            }
            let len: usize = (data[i + 2] as usize) * 256 + (data[i + 3] as usize);
            assert(len == be16_at(data@, i + 2));
            if len > n - i - 2 {
                extend_range(&mut output, data, i, n);
                return output;
            }
            if marker == 0xE1 {
                i = i + 2 + len;
            } else {
                extend_range(&mut output, data, i, i + 2 + len);
                assert(output@ + jpeg_body(data@, (i + 2 + len) as nat) == strip_jpeg_spec(data@));
                i = i + 2 + len;
            }
        } else {
            output.push(data[i]);
            assert(output@ + jpeg_body(data@, (i + 1) as nat) == strip_jpeg_spec(data@));
            i = i + 1;
        }
    }
    assert(jpeg_body(data@, i as nat) == Seq::<u8>::empty());
    assert(output@ + Seq::<u8>::empty() == output@);
    output
}


/// The eight-byte PNG file signature.
pub open spec fn png_signature() -> Seq<u8> {
    seq![0x89u8, 0x50u8, 0x4Eu8, 0x47u8, 0x0Du8, 0x0Au8, 0x1Au8, 0x0Au8]
}

/// Big-endian value of the four bytes starting at `i`.
pub open spec fn be32_at(d: Seq<u8>, i: int) -> nat {
    (d[i] as nat) * 16777216 + (d[i + 1] as nat) * 65536 + (d[i + 2] as nat) * 256 + (d[i + 3] as nat)
}

/// Whether a four-byte chunk type names a metadata chunk
/// (`tEXt`, `zTXt`, `iTXt`, `eXIf`, `iCCP`, `gAMA`, `sRGB`, `tIME`).
pub open spec fn is_png_metadata_type(t: Seq<u8>) -> bool {
    ||| t == seq![0x74u8, 0x45u8, 0x58u8, 0x74u8]
    ||| t == seq![0x7Au8, 0x54u8, 0x58u8, 0x74u8]
    ||| t == seq![0x69u8, 0x54u8, 0x58u8, 0x74u8]
    ||| t == seq![0x65u8, 0x58u8, 0x49u8, 0x66u8]
    ||| t == seq![0x69u8, 0x43u8, 0x43u8, 0x50u8]
    ||| t == seq![0x67u8, 0x41u8, 0x4Du8, 0x41u8]
    ||| t == seq![0x73u8, 0x52u8, 0x47u8, 0x42u8]
    ||| t == seq![0x74u8, 0x49u8, 0x4Du8, 0x45u8]
}

/// What remains of a PNG chunk stream from position `i` once the metadata chunks are dropped.
pub open spec fn png_body(d: Seq<u8>, i: nat) -> Seq<u8>
    decreases d.len() - i,
{
    if i > d.len() {
        seq![]
    } else if i + 8 > d.len() {
        tail_from(d, i as int)
    } else {
        let len = be32_at(d, i as int);
        if i + 12 + len > d.len() {
            tail_from(d, i as int)
        } else if is_png_metadata_type(d.subrange(i + 4 as int, i + 8 as int)) {
            png_body(d, i + 12 + len)
        } else {
            d.subrange(i as int, (i + 12 + len) as int) + png_body(d, i + 12 + len)
        }
    }
}

/// A PNG file with its metadata chunks removed; other data is returned unchanged.
pub open spec fn strip_png_spec(d: Seq<u8>) -> Seq<u8> {
    if d.len() < 8 || d.subrange(0, 8) != png_signature() {
        d
    } else {
        png_signature() + png_body(d, 8)
    }
}

/// Whether the four bytes at `i` name a PNG metadata chunk.
fn png_metadata_type_at(data: &[u8], i: usize) -> (res: bool)
    requires
        i + 4 <= data@.len(),
    ensures
        res == is_png_metadata_type(data@.subrange(i as int, i + 4)),
{
    let a = data[i];
    let b = data[i + 1];
    let c = data[i + 2];
    let e = data[i + 3];
    let ghost t = data@.subrange(i as int, i + 4);
    assert(t == seq![a, b, c, e]);
    (a == 0x74 && b == 0x45 && c == 0x58 && e == 0x74)
        || (a == 0x7A && b == 0x54 && c == 0x58 && e == 0x74)
        || (a == 0x69 && b == 0x54 && c == 0x58 && e == 0x74)
        || (a == 0x65 && b == 0x58 && c == 0x49 && e == 0x66)
        || (a == 0x69 && b == 0x43 && c == 0x43 && e == 0x50)
        || (a == 0x67 && b == 0x41 && c == 0x4D && e == 0x41)
        || (a == 0x73 && b == 0x52 && c == 0x47 && e == 0x42)
        || (a == 0x74 && b == 0x49 && c == 0x4D && e == 0x45)
}

/// Strips metadata chunks from PNG files.
///
/// Returns a new vector with the metadata chunks (`tEXt`, `zTXt`, `iTXt`, `eXIf`,
/// `iCCP`, `gAMA`, `sRGB`, `tIME`) removed; every other byte is kept, a truncated or
/// short tail included, and data without the PNG signature is returned unchanged.
pub fn strip_png_metadata(data: &[u8]) -> (res: Vec<u8>)
    ensures
        res@ == strip_png_spec(data@),
{
    let n = data.len();
    let mut output: Vec<u8> = Vec::new();
    let is_png = n >= 8 && data[0] == 0x89 && data[1] == 0x50 && data[2] == 0x4E && data[3] == 0x47
        && data[4] == 0x0D && data[5] == 0x0A && data[6] == 0x1A && data[7] == 0x0A;
    proof {
        if n >= 8 {
            assert(is_png == (data@.subrange(0, 8) =~= png_signature()));
        }
    }
    if !is_png {
        extend_range(&mut output, data, 0, n);
        assert(data@.subrange(0, n as int) == data@);
        return output;
    }
    extend_range(&mut output, data, 0, 8);
    let mut i: usize = 8;
    while i <= n && n - i >= 8
        invariant
            n == data@.len(),
            8 <= i <= n,
            output@ + png_body(data@, i as nat) == strip_png_spec(data@),
        decreases n - i,
    {
        let chunk_len: usize = (data[i] as usize) * 16777216 + (data[i + 1] as usize) * 65536
            + (data[i + 2] as usize) * 256 + (data[i + 3] as usize);
        assert(chunk_len == be32_at(data@, i as int));
        if n - i < 12 || chunk_len > n - i - 12 {
            extend_range(&mut output, data, i, n);
            return output;
        }
        if png_metadata_type_at(data, i + 4) {
            i = i + 12 + chunk_len;
        } else {
            extend_range(&mut output, data, i, i + 12 + chunk_len);
            assert(output@ + png_body(data@, (i + 12 + chunk_len) as nat) == strip_png_spec(data@));
            i = i + 12 + chunk_len;
        }
    }
    extend_range(&mut output, data, i, n);
    output
}


/// Whether `p` occurs in `d` at position `i`.
pub open spec fn occurs_at(d: Seq<u8>, i: int, p: Seq<u8>) -> bool {
    0 <= i && i + p.len() <= d.len() && d.subrange(i, i + p.len()) == p
}

/// Whether `occurs_at(data@, i, pat@)`.
pub fn bytes_at(data: &[u8], i: usize, pat: &[u8]) -> (res: bool)
    ensures
        res == occurs_at(data@, i as int, pat@),
{
    let dl = data.len();
    if i > dl || pat.len() > dl - i {
        return false;
    }
    let mut k: usize = 0;
    while k < pat.len()
        invariant
            dl == data@.len(),
            i + pat@.len() <= data@.len(),
            i <= data@.len(),
            k <= pat@.len(),
            forall|j: int| 0 <= j < k ==> data@[i + j] == pat@[j],
        decreases pat.len() - k,
    {
        if data[i + k] != pat[k] {
            assert(data@.subrange(i as int, i + pat@.len())[k as int] != pat@[k as int]);
            return false;
        }
        k = k + 1;
    }
    assert(data@.subrange(i as int, i + pat@.len()) =~= pat@);
    true
}

/// ASCII whitespace as `u8::is_ascii_whitespace` defines it (space, tab, line feed, form feed, carriage return).
pub open spec fn is_ascii_ws(b: u8) -> bool {
    b == 0x20 || b == 0x09 || b == 0x0A || b == 0x0C || b == 0x0D
}

/// Bytes that end a PDF name (or the end of the data, shown as 0).
pub open spec fn is_pdf_delimiter_spec(b: u8) -> bool {
    b == 0 || is_ascii_ws(b) || b == 0x5B || b == 0x5D || b == 0x3C || b == 0x3E || b == 0x28
        || b == 0x29 || b == 0x7B || b == 0x7D || b == 0x2F || b == 0x25
}

fn is_pdf_delimiter(b: u8) -> (res: bool)
    ensures
        res == is_pdf_delimiter_spec(b),
{
    b == 0 || b == 0x20 || b == 0x09 || b == 0x0A || b == 0x0C || b == 0x0D || b == 0x5B || b
        == 0x5D || b == 0x3C || b == 0x3E || b == 0x28 || b == 0x29 || b == 0x7B || b == 0x7D || b
        == 0x2F || b == 0x25
}

/// `stream`
pub open spec fn kw_stream() -> Seq<u8> {
    seq![0x73u8, 0x74u8, 0x72u8, 0x65u8, 0x61u8, 0x6Du8]
}

/// `endstream`
pub open spec fn kw_endstream() -> Seq<u8> {
    seq![0x65u8, 0x6Eu8, 0x64u8, 0x73u8, 0x74u8, 0x72u8, 0x65u8, 0x61u8, 0x6Du8]
}

/// `/JS`
pub open spec fn kw_js() -> Seq<u8> {
    seq![0x2Fu8, 0x4Au8, 0x53u8]
}

/// `/JavaScript`
pub open spec fn kw_javascript() -> Seq<u8> {
    seq![0x2Fu8, 0x4Au8, 0x61u8, 0x76u8, 0x61u8, 0x53u8, 0x63u8, 0x72u8, 0x69u8, 0x70u8, 0x74u8]
}

/// `/AA`
pub open spec fn kw_aa() -> Seq<u8> {
    seq![0x2Fu8, 0x41u8, 0x41u8]
}

/// `/OpenAction`
pub open spec fn kw_open_action() -> Seq<u8> {
    seq![0x2Fu8, 0x4Fu8, 0x70u8, 0x65u8, 0x6Eu8, 0x41u8, 0x63u8, 0x74u8, 0x69u8, 0x6Fu8, 0x6Eu8]
}

/// The byte at `k`, or 0 past the end.
pub open spec fn byte_or_zero(d: Seq<u8>, k: int) -> u8 {
    if 0 <= k < d.len() {
        d[k]
    } else {
        0
    }
}

/// A PDF name key at `i`, followed by a delimiter (or the end of the data).
pub open spec fn key_at(d: Seq<u8>, i: int, key: Seq<u8>) -> bool {
    occurs_at(d, i, key) && is_pdf_delimiter_spec(byte_or_zero(d, i + key.len()))
}

/// The start of a stream block at `i`: `stream` at the start or after whitespace or `>`.
pub open spec fn stream_start_at(d: Seq<u8>, i: int) -> bool {
    occurs_at(d, i, kw_stream()) && (i == 0 || is_ascii_ws(d[i - 1]) || d[i - 1] == 0x3E)
}

/// The kinds of active content that the PDF scan reports.
#[derive(Debug, Clone, Copy, PartialEq, Eq, Structural)]
pub enum PdfActiveContent {
    /// A `/JS` key.
    JavaScriptKey,
    /// A `/JavaScript` key.
    JavaScript,
    /// An `/AA` (additional action) key.
    AdditionalAction,
    /// An `/OpenAction` key.
    OpenAction,
}

impl PdfActiveContent {
    /// The key that the kind stands for.
    pub open spec fn key(self) -> Seq<u8> {
        match self {
            PdfActiveContent::JavaScriptKey => kw_js(),
            PdfActiveContent::JavaScript => kw_javascript(),
            PdfActiveContent::AdditionalAction => kw_aa(),
            PdfActiveContent::OpenAction => kw_open_action(),
        }
    }

    /// The text of the error message for this kind.
    pub open spec fn label(self) -> Seq<char> {
        match self {
            PdfActiveContent::JavaScriptKey => "JavaScript (/JS)"@,
            PdfActiveContent::JavaScript => "JavaScript"@,
            PdfActiveContent::AdditionalAction => "Additional Action (/AA)"@,
            PdfActiveContent::OpenAction => "OpenAction"@,
        }
    }
}

/// The first active-content key that a scan from `i` finds, skipping stream blocks.
/// `in_stream` means that the scan is inside a stream block and looks for `endstream`;
/// a stream block without `endstream` ends the scan.
pub open spec fn pdf_scan(d: Seq<u8>, i: nat, in_stream: bool) -> Option<PdfActiveContent>
    decreases d.len() - i,
{
    if in_stream {
        if i + 9 > d.len() {
            None
        } else if occurs_at(d, i as int, kw_endstream()) {
            pdf_scan(d, i + 9, false)
        } else {
            pdf_scan(d, i + 1, true)
        }
    } else if i >= d.len() {
        None
    } else if stream_start_at(d, i as int) {
        pdf_scan(d, i + 6, true)
    } else if key_at(d, i as int, kw_js()) {
        Some(PdfActiveContent::JavaScriptKey)
    } else if key_at(d, i as int, kw_javascript()) {
        Some(PdfActiveContent::JavaScript)
    } else if key_at(d, i as int, kw_aa()) {
        Some(PdfActiveContent::AdditionalAction)
    } else if key_at(d, i as int, kw_open_action()) {
        Some(PdfActiveContent::OpenAction)
    } else {
        pdf_scan(d, i + 1, false)
    }
}

fn key_at_exec(data: &[u8], i: usize, key: &[u8]) -> (res: bool)
    ensures
        res == key_at(data@, i as int, key@),
{
    if !bytes_at(data, i, key) {
        return false;
    }
    let dl = data.len();
    assert(i + key@.len() <= dl);
    let k = i + key.len();
    let next = if k < data.len() {
        data[k]
    } else {
        0
    };
    is_pdf_delimiter(next)
}

/// Scans a PDF for active content (`/JS`, `/JavaScript`, `/AA`, `/OpenAction`) outside stream blocks.
pub fn scan_pdf_for_active_content(data: &[u8]) -> (res: Result<(), SanitizerError>)
    ensures
        match pdf_scan(data@, 0, false) {
            None => res is Ok,
            Some(k) => res matches Err(SanitizerError::ActiveContent(s)) && s@ == k.label(),
        },
{
    let stream: [u8; 6] = [0x73, 0x74, 0x72, 0x65, 0x61, 0x6D];
    let endstream: [u8; 9] = [0x65, 0x6E, 0x64, 0x73, 0x74, 0x72, 0x65, 0x61, 0x6D];
    let js: [u8; 3] = [0x2F, 0x4A, 0x53];
    let javascript: [u8; 11] = [0x2F, 0x4A, 0x61, 0x76, 0x61, 0x53, 0x63, 0x72, 0x69, 0x70, 0x74];
    let aa: [u8; 3] = [0x2F, 0x41, 0x41];
    let open_action: [u8; 11] = [0x2F, 0x4F, 0x70, 0x65, 0x6E, 0x41, 0x63, 0x74, 0x69, 0x6F, 0x6E];
    assert(stream@ == kw_stream());
    assert(endstream@ == kw_endstream());
    assert(js@ == kw_js());
    assert(javascript@ == kw_javascript());
    assert(aa@ == kw_aa());
    assert(open_action@ == kw_open_action());
    let n = data.len();
    let mut i: usize = 0;
    while i < n
        invariant
            n == data@.len(),
            i <= n,
            stream@ == kw_stream(),
            endstream@ == kw_endstream(),
            js@ == kw_js(),
            javascript@ == kw_javascript(),
            aa@ == kw_aa(),
            open_action@ == kw_open_action(),
            pdf_scan(data@, i as nat, false) == pdf_scan(data@, 0, false),
        decreases n - i,
    {
        let at_stream = bytes_at(data, i, &stream) && (i == 0 || data[i - 1] == 0x20 || data[i - 1]
            == 0x09 || data[i - 1] == 0x0A || data[i - 1] == 0x0C || data[i - 1] == 0x0D || data[i
            - 1] == 0x3E);
        if at_stream {
            let ghost start = i;
            i = i + 6;
            let mut found_end = false;
            while i <= n && n - i >= 9
                invariant_except_break
                    n == data@.len(),
                    i <= n,
                    !found_end,
                    pdf_scan(data@, i as nat, true) == pdf_scan(data@, 0, false),
                invariant
                    i >= start + 6,
                    stream@ == kw_stream(),
                    endstream@ == kw_endstream(),
                    js@ == kw_js(),
                    javascript@ == kw_javascript(),
                    aa@ == kw_aa(),
                    open_action@ == kw_open_action(),
                ensures
                    n == data@.len(),
                    i <= n,
                    i > start,
                    found_end ==> pdf_scan(data@, i as nat, false) == pdf_scan(data@, 0, false),
                    !found_end ==> pdf_scan(data@, 0, false) is None,
                decreases n - i,
            {
                if bytes_at(data, i, &endstream) {
                    i = i + 9;
                    found_end = true;
                    break;
                }
                i = i + 1;
            }
            if !found_end {
                return Ok(());
            }
            continue;
        }
        if data[i] == 0x2F {
            if key_at_exec(data, i, &js) {
                return Err(SanitizerError::ActiveContent("JavaScript (/JS)".to_string()));
            }
            if key_at_exec(data, i, &javascript) {
                return Err(SanitizerError::ActiveContent("JavaScript".to_string()));
            }
            if key_at_exec(data, i, &aa) {
                return Err(SanitizerError::ActiveContent("Additional Action (/AA)".to_string()));
            }
            if key_at_exec(data, i, &open_action) {
                return Err(SanitizerError::ActiveContent("OpenAction".to_string()));
            }
        }
        i = i + 1;
    }
    Ok(())
}


/// `<!ENTITY`, the declaration that the entity scanner looks for.
pub open spec fn entity_target() -> Seq<u8> {
    seq![0x3Cu8, 0x21u8, 0x45u8, 0x4Eu8, 0x54u8, 0x49u8, 0x54u8, 0x59u8]
}

/// ASCII lowercase of a byte.
pub open spec fn ascii_lower(b: u8) -> u8 {
    if 0x41 <= b <= 0x5A {
        (b + 32) as u8
    } else {
        b
    }
}

/// Equality ignoring ASCII case, as `u8::eq_ignore_ascii_case`.
pub open spec fn ci_eq(a: u8, b: u8) -> bool {
    ascii_lower(a) == ascii_lower(b)
}

/// One step of the entity scanner: the number of target bytes matched after `b`.
pub open spec fn scan_step(k: nat, b: u8) -> nat {
    if k < 8 && ci_eq(b, entity_target()[k as int]) {
        k + 1
    } else if b == 0x3C {
        1
    } else {
        0
    }
}

/// The state of a scanner in state `k` after the bytes `s`; a full match (8) is final.
pub open spec fn scan_run(k: nat, s: Seq<u8>) -> nat
    decreases s.len(),
{
    if s.len() == 0 {
        k
    } else {
        let p = scan_run(k, s.drop_last());
        if p >= 8 {
            8
        } else {
            scan_step(p, s.last())
        }
    }
}

/// `<!ENTITY` occurs in `s` at `i`, ignoring ASCII case.
pub open spec fn entity_at(s: Seq<u8>, i: int) -> bool {
    0 <= i && i + 8 <= s.len() && forall|j: int| 0 <= j < 8 ==> ci_eq(#[trigger] s[i + j], entity_target()[j])
}

/// `s` contains `<!ENTITY`, ignoring ASCII case.
pub open spec fn contains_entity(s: Seq<u8>) -> bool {
    exists|i: int| entity_at(s, i)
}

/// `s` ends with the first `k` bytes of `<!ENTITY`, ignoring ASCII case.
pub open spec fn suffix_match(s: Seq<u8>, k: nat) -> bool {
    k <= 8 && k <= s.len() && forall|j: int| 0 <= j < k ==> ci_eq(#[trigger] s[s.len() - k + j], entity_target()[j])
}

/// A scanner in state 8 stays there.
pub proof fn lemma_scan_run_final(s: Seq<u8>)
    ensures
        scan_run(8, s) == 8,
    decreases s.len(),
{
    if s.len() > 0 {
        lemma_scan_run_final(s.drop_last());
    }
}

/// Scanning `a` and then `b` is scanning `a + b`: how the input is split into
/// chunks makes no difference to what the scanner finds.
pub proof fn lemma_scan_concat(k: nat, a: Seq<u8>, b: Seq<u8>)
    ensures
        scan_run(k, a + b) == scan_run(scan_run(k, a), b),
    decreases b.len(),
{
    if b.len() == 0 {
        assert(a + b =~= a);
    } else {
        lemma_scan_concat(k, a, b.drop_last());
        assert((a + b).drop_last() =~= a + b.drop_last());
        assert((a + b).last() == b.last());
    }
}

proof fn lemma_target_facts()
    ensures
        forall|j: int| 1 <= j < 8 ==> !ci_eq(0x3Cu8, #[trigger] entity_target()[j]),
        forall|b: u8| ci_eq(b, entity_target()[0]) <==> b == 0x3C,
{
    assert forall|j: int| 1 <= j < 8 implies !ci_eq(0x3Cu8, #[trigger] entity_target()[j]) by {
        assert(entity_target()[j] != 0x3C);
    }
    assert forall|b: u8| ci_eq(b, entity_target()[0]) <==> b == 0x3C by {
        if 0x41 <= b <= 0x5A {
            assert(ascii_lower(b) >= 0x61);
        }
    }
}

proof fn lemma_contains_push(s: Seq<u8>, b: u8)
    ensures
        contains_entity(s.push(b)) <==> contains_entity(s) || suffix_match(s.push(b), 8),
{
    let t = s.push(b);
    if contains_entity(s) {
        let i = choose|i: int| entity_at(s, i);
        assert forall|j: int| 0 <= j < 8 implies ci_eq(#[trigger] t[i + j], entity_target()[j]) by {
            assert(s[i + j] == t[i + j]);
        }
        assert(entity_at(t, i));
    }
    if suffix_match(t, 8) {
        let i = t.len() - 8;
        assert forall|j: int| 0 <= j < 8 implies ci_eq(#[trigger] t[i + j], entity_target()[j]) by {
            assert(t[t.len() - 8 + j] == t[i + j]);
        }
        assert(entity_at(t, i));
    }
    if contains_entity(t) {
        let i = choose|i: int| entity_at(t, i);
        if i + 8 <= s.len() {
            assert forall|j: int| 0 <= j < 8 implies ci_eq(#[trigger] s[i + j], entity_target()[j]) by {
                assert(s[i + j] == t[i + j]);
            }
            assert(entity_at(s, i));
        } else {
            assert(i == t.len() - 8);
            assert forall|j: int| 0 <= j < 8 implies ci_eq(#[trigger] t[t.len() - 8 + j], entity_target()[j]) by {
                assert(t[i + j] == t[t.len() - 8 + j]);
            }
        }
    }
}

proof fn lemma_scan_invariant(s: Seq<u8>)
    ensures
        contains_entity(s) ==> scan_run(0, s) == 8,
        !contains_entity(s) ==> {
            &&& scan_run(0, s) < 8
            &&& suffix_match(s, scan_run(0, s))
            &&& forall|k: nat| scan_run(0, s) < k <= 8 ==> !#[trigger] suffix_match(s, k)
        },
    decreases s.len(),
{
    lemma_target_facts();
    if s.len() == 0 {
        assert(!contains_entity(s));
        assert forall|k: nat| 0 < k <= 8 implies !#[trigger] suffix_match(s, k) by {}
    } else {
        let r = s.drop_last();
        let b = s.last();
        assert(r.push(b) =~= s);
        lemma_scan_invariant(r);
        lemma_contains_push(r, b);
        let p = scan_run(0, r);
        if contains_entity(r) {
        } else {
            assert(scan_run(0, s) == scan_step(p, b));
            // a suffix match of s of length k >= 1 ends with b and extends one of r of length k - 1
            assert forall|k: nat| 1 <= k <= 8 && suffix_match(s, k) implies suffix_match(r, (k - 1) as nat)
                && ci_eq(b, entity_target()[k - 1]) by {
                assert forall|j: int| 0 <= j < k - 1 implies ci_eq(#[trigger] r[r.len() - (k - 1) + j], entity_target()[j]) by {
                    assert(r[r.len() - (k - 1) + j] == s[s.len() - k + j]);
                }
                assert(s[s.len() - k + (k - 1)] == b);
            }
            if ci_eq(b, entity_target()[p as int]) {
                let q = p + 1;
                assert(scan_run(0, s) == q);
                assert forall|j: int| 0 <= j < q implies ci_eq(#[trigger] s[s.len() - q + j], entity_target()[j]) by {
                    if j < p {
                        assert(s[s.len() - q + j] == r[r.len() - p + j]);
                    }
                }
                assert(suffix_match(s, q));
                assert forall|k: nat| q < k <= 8 implies !#[trigger] suffix_match(s, k) by {
                    if suffix_match(s, k) {
                        assert(suffix_match(r, (k - 1) as nat));
                    }
                }
            } else {
                let q = scan_run(0, s);
                assert forall|k: nat| q < k <= 8 implies !#[trigger] suffix_match(s, k) by {
                    if suffix_match(s, k) {
                        assert(suffix_match(r, (k - 1) as nat));
                        if k == 1 {
                            assert(ci_eq(b, entity_target()[0]));
                        } else if k - 1 == p {
                        } else {
                            // both r-suffixes of length k - 1 and p start with '<' only at their own start
                            let m = (k - 1) as nat;
                            assert(m < p);
                            let idx = r.len() - m;
                            assert(ci_eq(r[r.len() - m + 0], entity_target()[0]));
                            assert(ci_eq(r[r.len() - p + (p - m)], entity_target()[p - m]));
                            assert(r[idx] == 0x3C);
                            assert(!ci_eq(0x3Cu8, entity_target()[p - m]));
                        }
                    }
                }
                if b == 0x3C {
                    assert(s[s.len() - 1 + 0] == b);
                    assert(suffix_match(s, 1));
                } else {
                    assert(suffix_match(s, 0));
                }
            }
        }
    }
}

/// A fresh scanner that is fed `s` reaches its final state exactly when `s`
/// contains `<!ENTITY`, ignoring ASCII case.
pub proof fn lemma_scan_detects(s: Seq<u8>)
    ensures
        (scan_run(0, s) == 8) <==> contains_entity(s),
{
    lemma_scan_invariant(s);
}

/// An incremental matcher for `<!ENTITY` (case-insensitive) across chunk boundaries.
#[derive(Debug)]
pub struct EntityScanner {
    match_idx: usize,
}

impl EntityScanner {
    /// The number of bytes of `<!ENTITY` matched at the end of what was fed so far.
    pub closed spec fn progress(&self) -> nat {
        self.match_idx as nat
    }

    pub fn new() -> (res: Self)
        ensures
            res.progress() == 0,
    {
        EntityScanner { match_idx: 0 }
    }

    /// Process a byte, returns true if b"<!ENTITY" (case-insensitive) is matched
    pub fn feed(&mut self, b: u8) -> (res: bool)
        requires
            old(self).progress() < 8,
        ensures
            final(self).progress() == scan_step(old(self).progress(), b),
            res == (final(self).progress() == 8),
    {
        let target: [u8; 8] = [0x3C, 0x21, 0x45, 0x4E, 0x54, 0x49, 0x54, 0x59];
        assert(target@ == entity_target());
        let target_char = target[self.match_idx];
        let lb = if 0x41 <= b && b <= 0x5A {
            b + 32
        } else {
            b
        };
        let lt = if 0x41 <= target_char && target_char <= 0x5A {
            target_char + 32
        } else {
            target_char
        };
        if lb == lt {
            self.match_idx = self.match_idx + 1;
            if self.match_idx == 8 {
                return true;
            }
        } else {
            if b == 0x3C {
                self.match_idx = 1;
            } else {
                self.match_idx = 0;
            }
        }
        false
    }

    /// Feeds a chunk of bytes, returns true if b"<!ENTITY" is found
    pub fn feed_chunk(&mut self, chunk: &[u8]) -> (res: bool)
        requires
            old(self).progress() < 8,
        ensures
            final(self).progress() == scan_run(old(self).progress(), chunk@),
            res == (final(self).progress() == 8),
    {
        let n = chunk.len();
        let mut i: usize = 0;
        while i < n
            invariant
                n == chunk@.len(),
                i <= n,
                self.progress() < 8,
                self.progress() == scan_run(old(self).progress(), chunk@.take(i as int)),
            decreases n - i,
        {
            let ghost before = chunk@.take(i as int);
            assert(chunk@.take(i + 1) =~= before.push(chunk@[i as int]));
            assert(chunk@.take(i + 1).drop_last() =~= before);
            if self.feed(chunk[i]) {
                proof {
                    assert(chunk@ =~= chunk@.take(i + 1) + chunk@.skip(i + 1));
                    lemma_scan_concat(old(self).progress(), chunk@.take(i + 1), chunk@.skip(i + 1));
                    lemma_scan_run_final(chunk@.skip(i + 1));
                }
                return true;
            }
            i = i + 1;
        }
        assert(chunk@.take(n as int) =~= chunk@);
        false
    }
}


proof fn lemma_jpeg_body_len(d: Seq<u8>, i: nat)
    ensures
        jpeg_body(d, i).len() <= if i <= d.len() { d.len() - i } else { 0 },
    decreases d.len() - i,
{
    if i < d.len() && d[i as int] == 0xFF && i + 1 < d.len() {
        let m = d[i + 1 as int];
        if m == 0x00 || (0xD0 <= m <= 0xD7) {
            lemma_jpeg_body_len(d, i + 2);
        } else if m != 0xD9 && i + 3 < d.len() {
            let len = be16_at(d, i + 2 as int);
            if i + 2 + len <= d.len() {
                lemma_jpeg_body_len(d, i + 2 + len);
            }
        }
    } else if i < d.len() {
        lemma_jpeg_body_len(d, i + 1);
    }
}

proof fn lemma_jpeg_body_shift(d: Seq<u8>, i: nat, k: nat)
    requires
        i <= d.len(),
    ensures
        jpeg_body(d, i + k) == jpeg_body(d.subrange(i as int, d.len() as int), k),
    decreases d.len() - (i + k),
{
    let e = d.subrange(i as int, d.len() as int);
    let p = i + k;
    if p < d.len() {
        assert(e[k as int] == d[p as int]);
        if d[p as int] == 0xFF {
            if p + 1 < d.len() {
                let m = d[p + 1 as int];
                assert(e[k + 1 as int] == m);
                if m == 0x00 || (0xD0 <= m <= 0xD7) {
                    lemma_jpeg_body_shift(d, i, k + 2);
                } else if m != 0xD9 {
                    if p + 3 >= d.len() {
                        assert(tail_from(d, p as int) =~= tail_from(e, k as int));
                    } else {
                        assert(e[k + 2 as int] == d[p + 2 as int]);
                        assert(e[k + 3 as int] == d[p + 3 as int]);
                        let len = be16_at(d, p + 2 as int);
                        assert(be16_at(e, k + 2 as int) == len);
                        if p + 2 + len > d.len() {
                            assert(tail_from(d, p as int) =~= tail_from(e, k as int));
                        } else {
                            lemma_jpeg_body_shift(d, i, k + 2 + len);
                            assert(d.subrange(p as int, (p + 2 + len) as int) =~= e.subrange(
                                k as int,
                                (k + 2 + len) as int,
                            ));
                        }
                    }
                }
            }
        } else {
            lemma_jpeg_body_shift(d, i, k + 1);
        }
    }
}

proof fn lemma_jpeg_body_stable(d: Seq<u8>, i: nat)
    ensures
        jpeg_body(jpeg_body(d, i), 0) == jpeg_body(d, i),
    decreases d.len() - i,
{
    let b = jpeg_body(d, i);
    if i < d.len() {
        if d[i as int] == 0xFF {
            if i + 1 >= d.len() {
            } else {
                let m = d[i + 1 as int];
                if m == 0x00 || (0xD0 <= m <= 0xD7) {
                    let rest = jpeg_body(d, i + 2);
                    lemma_jpeg_body_stable(d, i + 2);
                    assert(b == seq![0xFFu8, m] + rest);
                    assert(b[0] == 0xFF && b[1] == m);
                    lemma_jpeg_body_shift(b, 2, 0);
                    assert(b.subrange(2, b.len() as int) =~= rest);
                    } else if m == 0xD9 {
                    } else if i + 3 >= d.len() {
                    lemma_jpeg_body_shift(d, i, 0);
                    assert(b =~= d.subrange(i as int, d.len() as int));
                    } else {
                    let len = be16_at(d, i + 2 as int);
                    if i + 2 + len > d.len() {
                        lemma_jpeg_body_shift(d, i, 0);
                        assert(b =~= d.subrange(i as int, d.len() as int));
                    } else if m == 0xE1 {
                        lemma_jpeg_body_stable(d, i + 2 + len);
                    } else {
                        let seg = d.subrange(i as int, (i + 2 + len) as int);
                        let rest = jpeg_body(d, i + 2 + len);
                        lemma_jpeg_body_stable(d, i + 2 + len);
                        assert(b == seg + rest);
                        // the segment's length field reads the same in `b`
                        if len == 0 {
                            assert(d[i + 2 as int] == 0 && d[i + 3 as int] == 0);
                            assert(rest == seq![d[i + 2 as int]] + jpeg_body(d, i + 3));
                            assert(jpeg_body(d, i + 3) == seq![d[i + 3 as int]] + jpeg_body(d, i + 4));
                        } else if len == 1 {
                            assert(d[i + 2 as int] == 0 && d[i + 3 as int] == 1);
                            assert(rest == seq![d[i + 3 as int]] + jpeg_body(d, i + 4));
                        }
                        assert(b[2] == d[i + 2 as int]);
                        assert(b[3] == d[i + 3 as int]);
                        assert(be16_at(b, 2) == len);
                        lemma_jpeg_body_shift(b, 0, 2 + len);
                        assert(b.subrange(0, b.len() as int) =~= b);
                        lemma_jpeg_body_shift(b, (2 + len) as nat, 0);
                        assert(b.subrange((2 + len) as int, b.len() as int) =~= rest);
                        assert(b.subrange(0, (2 + len) as int) =~= seg);
                            }
                }
            }
        } else {
            lemma_jpeg_body_stable(d, i + 1);
            lemma_jpeg_body_shift(b, 1, 0);
            assert(b.subrange(1, b.len() as int) =~= jpeg_body(d, i + 1));
        }
    }
}

/// `a` is `b` with some of its bytes left out, in order.
pub open spec fn is_subsequence(a: Seq<u8>, b: Seq<u8>) -> bool
    decreases b.len(),
{
    a.len() == 0 || (b.len() > 0 && ((a[0] == b[0] && is_subsequence(a.drop_first(), b.drop_first()))
        || is_subsequence(a, b.drop_first())))
}

proof fn lemma_subsequence_refl(s: Seq<u8>)
    ensures
        is_subsequence(s, s),
    decreases s.len(),
{
    if s.len() > 0 {
        lemma_subsequence_refl(s.drop_first());
    }
}

proof fn lemma_subsequence_skip(a: Seq<u8>, c: Seq<u8>, b: Seq<u8>)
    requires
        is_subsequence(a, b),
    ensures
        is_subsequence(a, c + b),
    decreases c.len(),
{
    if c.len() > 0 && a.len() > 0 {
        lemma_subsequence_skip(a, c.drop_first(), b);
        assert((c + b).drop_first() =~= c.drop_first() + b);
    } else if c.len() == 0 {
        assert(c + b =~= b);
    }
}

proof fn lemma_subsequence_concat(x: Seq<u8>, y: Seq<u8>, u: Seq<u8>, v: Seq<u8>)
    requires
        is_subsequence(x, y),
        is_subsequence(u, v),
    ensures
        is_subsequence(x + u, y + v),
    decreases y.len(),
{
    if x.len() == 0 {
        assert(x + u =~= u);
        lemma_subsequence_skip(u, y, v);
    } else {
        assert((y + v).drop_first() =~= y.drop_first() + v);
        if x[0] == y[0] && is_subsequence(x.drop_first(), y.drop_first()) {
            lemma_subsequence_concat(x.drop_first(), y.drop_first(), u, v);
            assert((x + u).drop_first() =~= x.drop_first() + u);
        } else {
            lemma_subsequence_concat(x, y.drop_first(), u, v);
        }
    }
}

proof fn lemma_jpeg_body_subsequence(d: Seq<u8>, i: nat)
    requires
        i <= d.len(),
    ensures
        is_subsequence(jpeg_body(d, i), tail_from(d, i as int)),
    decreases d.len() - i,
{
    let t = tail_from(d, i as int);
    if i < d.len() {
        if d[i as int] == 0xFF && i + 1 < d.len() {
            let m = d[i + 1 as int];
            let head = d.subrange(i as int, i + 2 as int);
            assert(t =~= head + tail_from(d, i + 2 as int));
            if m == 0x00 || (0xD0 <= m <= 0xD7) {
                lemma_jpeg_body_subsequence(d, i + 2);
                lemma_subsequence_refl(head);
                assert(head =~= seq![0xFFu8, m]);
                lemma_subsequence_concat(head, head, jpeg_body(d, i + 2), tail_from(d, i + 2 as int));
            } else if m == 0xD9 {
                assert(head =~= seq![0xFFu8, 0xD9u8]);
                lemma_subsequence_refl(head);
                lemma_subsequence_concat(head, head, Seq::<u8>::empty(), tail_from(d, i + 2 as int));
                assert(head + Seq::<u8>::empty() =~= head);
            } else if i + 3 >= d.len() {
                lemma_subsequence_refl(t);
            } else {
                let len = be16_at(d, i + 2 as int);
                if i + 2 + len > d.len() {
                    lemma_subsequence_refl(t);
                } else {
                    let k = (i + 2 + len) as nat;
                    let seg = d.subrange(i as int, k as int);
                    assert(t =~= seg + tail_from(d, k as int));
                    lemma_jpeg_body_subsequence(d, k);
                    if m == 0xE1 {
                        lemma_subsequence_skip(jpeg_body(d, k), seg, tail_from(d, k as int));
                    } else {
                        lemma_subsequence_refl(seg);
                        lemma_subsequence_concat(seg, seg, jpeg_body(d, k), tail_from(d, k as int));
                    }
                }
            }
        } else if d[i as int] == 0xFF {
            assert(t =~= seq![0xFFu8]);
            lemma_subsequence_refl(t);
        } else {
            let head = seq![d[i as int]];
            assert(t =~= head + tail_from(d, i + 1 as int));
            lemma_jpeg_body_subsequence(d, i + 1);
            lemma_subsequence_refl(head);
            lemma_subsequence_concat(head, head, jpeg_body(d, i + 1), tail_from(d, i + 1 as int));
        }
    }
}

/// Stripping JPEG metadata only leaves bytes out: the result is a subsequence of the data.
pub proof fn lemma_strip_jpeg_subsequence(d: Seq<u8>)
    ensures
        is_subsequence(strip_jpeg_spec(d), d),
{
    if d.len() < 2 || d[0] != 0xFF || d[1] != 0xD8 {
        lemma_subsequence_refl(d);
    } else {
        let head = d.subrange(0, 2);
        assert(head =~= seq![0xFFu8, 0xD8u8]);
        assert(d =~= head + tail_from(d, 2));
        lemma_jpeg_body_subsequence(d, 2);
        lemma_subsequence_refl(head);
        lemma_subsequence_concat(head, head, jpeg_body(d, 2), tail_from(d, 2));
    }
}

/// Stripping JPEG metadata twice removes nothing more than stripping it once.
pub proof fn lemma_strip_jpeg_idempotent(d: Seq<u8>)
    ensures
        strip_jpeg_spec(strip_jpeg_spec(d)) == strip_jpeg_spec(d),
{
    if !(d.len() < 2 || d[0] != 0xFF || d[1] != 0xD8) {
        let s = strip_jpeg_spec(d);
        let b = jpeg_body(d, 2);
        lemma_jpeg_body_stable(d, 2);
        lemma_jpeg_body_shift(s, 2, 0);
        assert(s.subrange(2, s.len() as int) =~= b);
    }
}

/// A JPEG marker segment: `FF`, the marker `m`, a two-byte big-endian length that counts
/// itself and the payload, then the payload.
pub open spec fn jpeg_segment(m: u8, payload: Seq<u8>) -> Seq<u8> {
    seq![0xFFu8, m, ((payload.len() + 2) / 256) as u8, ((payload.len() + 2) % 256) as u8] + payload
}

proof fn lemma_jpeg_segment_step(m: u8, payload: Seq<u8>, r: Seq<u8>)
    requires
        payload.len() + 2 < 65536,
        m != 0x00 && m != 0xD9 && !(0xD0 <= m <= 0xD7),
    ensures
        ({
            let h = seq![0xFFu8, 0xD8u8];
            let seg = jpeg_segment(m, payload);
            let d = h + seg + r;
            &&& strip_jpeg_spec(d) == h + (if m == 0xE1 {
                jpeg_body(r, 0)
            } else {
                seg + jpeg_body(r, 0)
            })
            &&& strip_jpeg_spec(h + r) == h + jpeg_body(r, 0)
        }),
{
    let h = seq![0xFFu8, 0xD8u8];
    let seg = jpeg_segment(m, payload);
    let d = h + seg + r;
    let n = payload.len() + 2;
    assert(d[0] == 0xFF && d[1] == 0xD8 && d[2] == 0xFF && d[3] == m);
    assert(d[4] == (n / 256) as u8 && d[5] == (n % 256) as u8);
    assert(be16_at(d, 4) == n);
    let k = (2 + 2 + n) as nat;
    assert(k == h.len() + seg.len());
    assert(d.subrange(2, k as int) =~= seg);
    lemma_jpeg_body_shift(d, k, 0);
    assert(d.subrange(k as int, d.len() as int) =~= r);
    let hr = h + r;
    assert(hr[0] == 0xFF && hr[1] == 0xD8);
    lemma_jpeg_body_shift(hr, 2, 0);
    assert(hr.subrange(2, hr.len() as int) =~= r);
}

/// Stripping keeps every marker segment other than APP1 (`FF E1`), unchanged and in its place:
/// a segment at the start of a JPEG's stream is kept in front of what stripping the rest gives.
pub proof fn lemma_jpeg_keeps_other_segments(m: u8, payload: Seq<u8>, r: Seq<u8>)
    requires
        payload.len() + 2 < 65536,
        m != 0xE1 && m != 0x00 && m != 0xD9 && !(0xD0 <= m <= 0xD7),
    ensures
        strip_jpeg_spec(seq![0xFFu8, 0xD8u8] + jpeg_segment(m, payload) + r) == seq![0xFFu8, 0xD8u8]
            + jpeg_segment(m, payload) + strip_jpeg_spec(seq![0xFFu8, 0xD8u8] + r).skip(2),
{
    lemma_jpeg_segment_step(m, payload, r);
    let h = seq![0xFFu8, 0xD8u8];
    assert((h + jpeg_body(r, 0)).skip(2) =~= jpeg_body(r, 0));
    assert(h + (jpeg_segment(m, payload) + jpeg_body(r, 0)) =~= h + jpeg_segment(m, payload)
        + jpeg_body(r, 0));
}

/// Stripping removes an APP1 (`FF E1`) segment whole: the result is that of the stream without it.
pub proof fn lemma_jpeg_drops_app1(payload: Seq<u8>, r: Seq<u8>)
    requires
        payload.len() + 2 < 65536,
    ensures
        strip_jpeg_spec(seq![0xFFu8, 0xD8u8] + jpeg_segment(0xE1, payload) + r) == strip_jpeg_spec(
            seq![0xFFu8, 0xD8u8] + r,
        ),
{
    lemma_jpeg_segment_step(0xE1, payload, r);
}

/// Stripping JPEG metadata never makes the data longer.
pub proof fn lemma_strip_jpeg_never_grows(d: Seq<u8>)
    ensures
        strip_jpeg_spec(d).len() <= d.len(),
{
    lemma_jpeg_body_len(d, 2);
}

proof fn lemma_png_body_len(d: Seq<u8>, i: nat)
    ensures
        png_body(d, i).len() <= if i <= d.len() { d.len() - i } else { 0 },
    decreases d.len() - i,
{
    if i + 8 <= d.len() {
        let len = be32_at(d, i as int);
        if i + 12 + len <= d.len() {
            lemma_png_body_len(d, i + 12 + len);
        }
    }
}

proof fn lemma_png_body_shift(d: Seq<u8>, i: nat, k: nat)
    requires
        i <= d.len(),
    ensures
        png_body(d, i + k) == png_body(d.subrange(i as int, d.len() as int), k),
    decreases d.len() - (i + k),
{
    let e = d.subrange(i as int, d.len() as int);
    let p = i + k;
    if p <= d.len() {
        if p + 8 > d.len() {
            assert(tail_from(d, p as int) =~= tail_from(e, k as int));
        } else {
            assert(e[k as int] == d[p as int]);
            assert(e[k + 1 as int] == d[p + 1 as int]);
            assert(e[k + 2 as int] == d[p + 2 as int]);
            assert(e[k + 3 as int] == d[p + 3 as int]);
            let len = be32_at(d, p as int);
            assert(be32_at(e, k as int) == len);
            if p + 12 + len > d.len() {
                assert(tail_from(d, p as int) =~= tail_from(e, k as int));
            } else {
                assert(d.subrange(p + 4 as int, p + 8 as int) =~= e.subrange(k + 4 as int, k + 8 as int));
                assert(d.subrange(p as int, (p + 12 + len) as int) =~= e.subrange(
                    k as int,
                    (k + 12 + len) as int,
                ));
                lemma_png_body_shift(d, i, (k + 12 + len) as nat);
            }
        }
    }
}

/// A PNG chunk: its four-byte big-endian data length, its four-byte type, its data and its
/// four-byte CRC.
pub open spec fn png_chunk(kind: Seq<u8>, data: Seq<u8>, crc: Seq<u8>) -> Seq<u8> {
    let n = data.len();
    seq![(n / 16777216) as u8, (n / 65536 % 256) as u8, (n / 256 % 256) as u8, (n % 256) as u8]
        + kind + data + crc
}

/// The types of the chunks that stripping removes: `tEXt`, `zTXt`, `iTXt`, `eXIf`, `iCCP`,
/// `gAMA`, `sRGB` and `tIME`.
pub open spec fn png_removed_type(kind: Seq<u8>) -> bool {
    ||| kind == seq![0x74u8, 0x45u8, 0x58u8, 0x74u8]
    ||| kind == seq![0x7Au8, 0x54u8, 0x58u8, 0x74u8]
    ||| kind == seq![0x69u8, 0x54u8, 0x58u8, 0x74u8]
    ||| kind == seq![0x65u8, 0x58u8, 0x49u8, 0x66u8]
    ||| kind == seq![0x69u8, 0x43u8, 0x43u8, 0x50u8]
    ||| kind == seq![0x67u8, 0x41u8, 0x4Du8, 0x41u8]
    ||| kind == seq![0x73u8, 0x52u8, 0x47u8, 0x42u8]
    ||| kind == seq![0x74u8, 0x49u8, 0x4Du8, 0x45u8]
}

proof fn lemma_png_chunk_step(kind: Seq<u8>, data: Seq<u8>, crc: Seq<u8>, r: Seq<u8>)
    requires
        kind.len() == 4,
        crc.len() == 4,
        data.len() < 0x1_0000_0000,
    ensures
        ({
            let sig = png_signature();
            let c = png_chunk(kind, data, crc);
            &&& strip_png_spec(sig + c + r) == sig + (if is_png_metadata_type(kind) {
                png_body(r, 0)
            } else {
                c + png_body(r, 0)
            })
            &&& strip_png_spec(sig + r) == sig + png_body(r, 0)
        }),
{
    let sig = png_signature();
    let c = png_chunk(kind, data, crc);
    let d = sig + c + r;
    let n = data.len();
    assert(d.subrange(0, 8) =~= sig);
    assert(d[8] == (n / 16777216) as u8 && d[9] == (n / 65536 % 256) as u8 && d[10] == (n / 256
        % 256) as u8 && d[11] == (n % 256) as u8);
    assert(be32_at(d, 8) == n) by (nonlinear_arith)
        requires
            d[8] == (n / 16777216) as u8,
            d[9] == (n / 65536 % 256) as u8,
            d[10] == (n / 256 % 256) as u8,
            d[11] == (n % 256) as u8,
            n < 0x1_0000_0000,
            be32_at(d, 8) == (d[8] as nat) * 16777216 + (d[9] as nat) * 65536 + (d[10] as nat)
                * 256 + (d[11] as nat),
    ;
    assert(d.subrange(12, 16) =~= kind);
    let k = (8 + 12 + n) as nat;
    assert(k == sig.len() + c.len());
    assert(d.subrange(8, k as int) =~= c);
    lemma_png_body_shift(d, k, 0);
    assert(d.subrange(k as int, d.len() as int) =~= r);
    let sr = sig + r;
    assert(sr.subrange(0, 8) =~= sig);
    lemma_png_body_shift(sr, 8, 0);
    assert(sr.subrange(8, sr.len() as int) =~= r);
}

/// Stripping removes a chunk of any of the eight metadata types whole: the result is that of
/// the file without it.
pub proof fn lemma_png_drops_metadata_chunk(kind: Seq<u8>, data: Seq<u8>, crc: Seq<u8>, r: Seq<u8>)
    requires
        png_removed_type(kind),
        crc.len() == 4,
        data.len() < 0x1_0000_0000,
    ensures
        strip_png_spec(
            seq![0x89u8, 0x50u8, 0x4Eu8, 0x47u8, 0x0Du8, 0x0Au8, 0x1Au8, 0x0Au8] + png_chunk(kind, data, crc) + r,
        ) == strip_png_spec(seq![0x89u8, 0x50u8, 0x4Eu8, 0x47u8, 0x0Du8, 0x0Au8, 0x1Au8, 0x0Au8] + r),
{
    lemma_png_chunk_step(kind, data, crc, r);
}

/// Stripping keeps a chunk of any other type, unchanged and in its place.
pub proof fn lemma_png_keeps_other_chunks(kind: Seq<u8>, data: Seq<u8>, crc: Seq<u8>, r: Seq<u8>)
    requires
        kind.len() == 4,
        !png_removed_type(kind),
        crc.len() == 4,
        data.len() < 0x1_0000_0000,
    ensures
        ({
            let sig = seq![0x89u8, 0x50u8, 0x4Eu8, 0x47u8, 0x0Du8, 0x0Au8, 0x1Au8, 0x0Au8];
            strip_png_spec(sig + png_chunk(kind, data, crc) + r) == sig + png_chunk(kind, data, crc)
                + strip_png_spec(sig + r).skip(8)
        }),
{
    lemma_png_chunk_step(kind, data, crc, r);
    let sig = png_signature();
    assert((sig + png_body(r, 0)).skip(8) =~= png_body(r, 0));
    assert(sig + (png_chunk(kind, data, crc) + png_body(r, 0)) =~= sig + png_chunk(kind, data, crc)
        + png_body(r, 0));
}

/// Stripping PNG metadata never makes the data longer.
pub proof fn lemma_strip_png_never_grows(d: Seq<u8>)
    ensures
        strip_png_spec(d).len() <= d.len(),
{
    lemma_png_body_len(d, 8);
}

proof fn lemma_pdf_scan_found(d: Seq<u8>, i: nat, in_stream: bool)
    ensures
        pdf_scan(d, i, in_stream) matches Some(k) ==> exists|p: int| i <= p && #[trigger] key_at(d, p, k.key()),
    decreases d.len() - i,
{
    if in_stream {
        if i + 9 <= d.len() {
            if occurs_at(d, i as int, kw_endstream()) {
                lemma_pdf_scan_found(d, i + 9, false);
            } else {
                lemma_pdf_scan_found(d, i + 1, true);
            }
        }
    } else if i < d.len() {
        if stream_start_at(d, i as int) {
            lemma_pdf_scan_found(d, i + 6, true);
        } else if key_at(d, i as int, kw_js()) || key_at(d, i as int, kw_javascript())
            || key_at(d, i as int, kw_aa()) || key_at(d, i as int, kw_open_action()) {
            assert(key_at(d, i as int, pdf_scan(d, i, in_stream)->0.key()));
        } else {
            lemma_pdf_scan_found(d, i + 1, false);
        }
    }
}

/// When the PDF scan reports active content, the key of that content occurs in the data
/// (followed by a delimiter or the end of the data).
pub proof fn lemma_pdf_finding_is_present(d: Seq<u8>)
    ensures
        pdf_scan(d, 0, false) matches Some(k) ==> exists|p: int| 0 <= p && #[trigger] key_at(d, p, k.key()),
{
    lemma_pdf_scan_found(d, 0, false);
}

/// A byte that may follow a PDF name key for it to count: whitespace, a delimiter character
/// (`[ ] < > ( ) { } / %`) or NUL.
pub open spec fn ends_pdf_name(b: u8) -> bool {
    b == 0x00 || b == 0x20 || b == 0x09 || b == 0x0A || b == 0x0C || b == 0x0D || b == 0x5B
        || b == 0x5D || b == 0x3C || b == 0x3E || b == 0x28 || b == 0x29 || b == 0x7B || b == 0x7D
        || b == 0x2F || b == 0x25
}

/// The word `stream` stands at `q`.
pub open spec fn stream_word_at(d: Seq<u8>, q: int) -> bool {
    0 <= q && q + 6 <= d.len() && d.subrange(q, q + 6) == seq![0x73u8, 0x74u8, 0x72u8, 0x65u8, 0x61u8, 0x6Du8]
}

/// One of the keys of active content: `/JS`, `/JavaScript`, `/AA` or `/OpenAction`.
pub open spec fn is_active_key(key: Seq<u8>) -> bool {
    ||| key == seq![0x2Fu8, 0x4Au8, 0x53u8]
    ||| key == seq![0x2Fu8, 0x4Au8, 0x61u8, 0x76u8, 0x61u8, 0x53u8, 0x63u8, 0x72u8, 0x69u8, 0x70u8, 0x74u8]
    ||| key == seq![0x2Fu8, 0x41u8, 0x41u8]
    ||| key == seq![0x2Fu8, 0x4Fu8, 0x70u8, 0x65u8, 0x6Eu8, 0x41u8, 0x63u8, 0x74u8, 0x69u8, 0x6Fu8, 0x6Eu8]
}

proof fn lemma_pdf_scan_complete_from(d: Seq<u8>, i: nat, p: int, key: Seq<u8>)
    requires
        i <= p,
        is_active_key(key),
        p + key.len() <= d.len(),
        d.subrange(p, p + key.len()) == key,
        p + key.len() == d.len() || ends_pdf_name(d[p + key.len()]),
        forall|q: int| 0 <= q < p ==> !#[trigger] stream_word_at(d, q),
    ensures
        pdf_scan(d, i, false) is Some,
    decreases p - i,
{
    assert(d[p] == d.subrange(p, p + key.len())[0]);
    assert(key_at(d, p, key));
    if i < p {
        if stream_start_at(d, i as int) {
            assert(stream_word_at(d, i as int));
        } else if !(key_at(d, i as int, kw_js()) || key_at(d, i as int, kw_javascript()) || key_at(
            d,
            i as int,
            kw_aa(),
        ) || key_at(d, i as int, kw_open_action())) {
            lemma_pdf_scan_complete_from(d, i + 1, p, key);
        }
    } else {
        assert(!stream_start_at(d, p)) by {
            if occurs_at(d, p, kw_stream()) {
                assert(d.subrange(p, p + 6)[0] == d[p]);
            }
        }
    }
}

/// Active content outside stream blocks is found: when `/JS`, `/JavaScript`, `/AA` or
/// `/OpenAction` stands at `p`, followed by the end of the data or by a byte that ends a name,
/// and no `stream` keyword occurs before `p`, the scan reports a finding.
pub proof fn lemma_pdf_active_key_found(d: Seq<u8>, p: int, key: Seq<u8>)
    requires
        0 <= p,
        is_active_key(key),
        p + key.len() <= d.len(),
        d.subrange(p, p + key.len()) == key,
        p + key.len() == d.len() || ends_pdf_name(d[p + key.len()]),
        forall|q: int| 0 <= q < p ==> !#[trigger] stream_word_at(d, q),
    ensures
        pdf_scan(d, 0, false) is Some,
{
    lemma_pdf_scan_complete_from(d, 0, p, key);
}

/// Data without a `/` byte has no active content.
pub proof fn lemma_pdf_without_slash_is_clean(d: Seq<u8>)
    requires
        forall|j: int| 0 <= j < d.len() ==> d[j] != 0x2F,
    ensures
        pdf_scan(d, 0, false) is None,
{
    lemma_pdf_scan_found(d, 0, false);
    if pdf_scan(d, 0, false) is Some {
        let k = pdf_scan(d, 0, false)->0;
        let p = choose|p: int| 0 <= p && #[trigger] key_at(d, p, k.key());
        assert(d.subrange(p, p + k.key().len())[0] == k.key()[0]);
        assert(d[p] == 0x2F);
    }
}


/// The `DefaultHasher` hash of the text `s` (what `Hash` of a `url::Url` with that serialization gives).
/// `DefaultHasher::new` uses fixed keys, so the hash is the same in every process of one build;
/// std leaves its algorithm unspecified, so it may differ between Rust releases.
pub uninterp spec fn default_hash(s: Seq<char>) -> u64;

/// Calls `BuildHasher::hash_one` with `BuildHasherDefault<DefaultHasher>` on the text.
#[verifier::external_body]
fn hash_text(s: &str) -> (res: u64)
    ensures
        res == default_hash(s@),
{
    std::hash::BuildHasherDefault::<std::collections::hash_map::DefaultHasher>::default().hash_one(s)
}

/// The last segment of a URL path (after its last `/`).
pub open spec fn last_segment(path: Seq<char>) -> Seq<char> {
    match after_last(path, '/') {
        Some(x) => x,
        None => path,
    }
}

/// The extension of a local file name: the alphanumeric characters of what follows the last
/// `.` of the path's last segment, or `default_ext` when that gives nothing.
pub open spec fn filename_ext(path: Seq<char>, default_ext: Seq<char>) -> Seq<char> {
    let raw = match after_last(last_segment(path), '.') {
        Some(x) => x,
        None => default_ext,
    };
    let f = filter_alnum(raw);
    if f.len() == 0 {
        default_ext
    } else {
        f
    }
}

/// The local file name of a URL: `sub_`, sixteen hex digits of its hash, `.` and the extension.
pub open spec fn local_filename(url: Seq<char>, default_ext: Seq<char>) -> Seq<char> {
    "sub_"@ + hex_digits(default_hash(url) as nat, 16) + "."@ + filename_ext(url_path(url), default_ext)
}

proof fn lemma_hex_digits_plain(h: nat, n: nat)
    ensures
        hex_digits(h, n).len() == n,
        forall|j: int| 0 <= j < n ==> {
            let c = #[trigger] hex_digits(h, n)[j];
            c != '/' && c != '\\' && c != '.'
        },
    decreases n,
{
    if n > 0 {
        lemma_hex_digits_plain(h / 16, (n - 1) as nat);
        let d = h % 16;
        assert(hex_digit(d) != '/' && hex_digit(d) != '\\' && hex_digit(d) != '.');
        assert forall|j: int| 0 <= j < n implies {
            let c = #[trigger] hex_digits(h, n)[j];
            c != '/' && c != '\\' && c != '.'
        } by {
            if j < n - 1 {
                assert(hex_digits(h, n)[j] == hex_digits(h / 16, (n - 1) as nat)[j]);
            }
        }
    }
}

/// Helper to generate a unique local filename deterministic for a URL.
///
/// The name is `sub_`, the hash of the URL in sixteen hex digits, `.`, and the extension
/// taken from the URL's path (alphanumeric characters only), or `default_ext`.
/// When `default_ext` holds no `/`, `\` or `.`, the name holds no `/` or `\`, and its only `.`
/// is the one before the extension, so it cannot leave the output directory.
pub fn generate_local_filename(url: &Url, default_ext: &str) -> (res: String)
    ensures
        res@ == local_filename(url@, default_ext@),
        (forall|j: int| 0 <= j < default_ext@.len() ==> {
            let c = #[trigger] default_ext@[j];
            c != '/' && c != '\\' && c != '.'
        }) ==> forall|j: int| 0 <= j < res@.len() ==> {
            let c = #[trigger] res@[j];
            c != '/' && c != '\\' && (c == '.' ==> j == 20)
        },
{
    let hash_val = hash_text(url.as_str());
    let path = chars_of(url.path().as_str());
    let segment = match after_last_chars(&path, '/') {
        Some(x) => x,
        None => path,
    };
    let raw = match after_last_chars(&segment, '.') {
        Some(x) => x,
        None => chars_of(default_ext),
    };
    let filtered = filter_alnum_chars(&raw);
    let ext = if filtered.len() == 0 {
        chars_of(default_ext)
    } else {
        filtered
    };
    let mut out: Vec<char> = Vec::new();
    push_str(&mut out, "sub_");
    let hex = hex16(hash_val);
    push_chars(&mut out, &hex);
    push_str(&mut out, ".");
    push_chars(&mut out, &ext);
    proof {
        reveal_strlit("sub_");
        reveal_strlit(".");
        lemma_hex_digits_plain(default_hash(url@) as nat, 16);
        assert(out@ == local_filename(url@, default_ext@));
        if forall|j: int| 0 <= j < default_ext@.len() ==> {
            let c = #[trigger] default_ext@[j];
            c != '/' && c != '\\' && c != '.'
        } {
            assert forall|j: int| 0 <= j < out@.len() implies {
                let c = #[trigger] out@[j];
                c != '/' && c != '\\' && (c == '.' ==> j == 20)
            } by {
                if j < 4 {
                    assert(out@[j] == "sub_"@[j]);
                } else if j < 20 {
                    assert(out@[j] == hex@[j - 4]);
                } else if j > 20 {
                    assert(out@[j] == ext@[j - 21]);
                }
            }
        }
    }
    string_of(&out)
}

} // verus!
