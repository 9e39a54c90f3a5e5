use vstd::prelude::*;

verus! {

/// Collects the characters of a string slice.
pub fn chars_of(s: &str) -> (v: Vec<char>)
    ensures
        v@ == s@,
{
    let mut v: Vec<char> = Vec::new();
    for c in it: s.chars()
        invariant
            v@ == it.seq().take(it.index() as int),
            it.seq() == s@,
    {
        v.push(c);
    }
    v
}

/// Calls `FromIterator<&char>` for `String` on the characters of `v`.
#[verifier::external_body]
pub(crate) fn string_of(v: &Vec<char>) -> (s: String)
    ensures
        s@ == v@,
{
    v.iter().collect()
}

/// The full Unicode lowercase mapping (`str::to_lowercase`) of `s`.
pub uninterp spec fn unicode_lowercase(s: Seq<char>) -> Seq<char>;

/// Whether every character of `s` is ASCII.
pub open spec fn is_ascii_text(s: Seq<char>) -> bool {
    forall|i: int| 0 <= i < s.len() ==> #[trigger] s[i] <= '\u{7f}'
}

/// `s` with its ASCII uppercase letters lowercased.
pub open spec fn ascii_lowercase(s: Seq<char>) -> Seq<char> {
    s.map_values(|c: char| crate::url::ascii_lower_char(c))
}

proof fn lemma_trim_start_ascii(s: Seq<char>)
    requires
        is_ascii_text(s),
    ensures
        is_ascii_text(trim_start_seq(s)),
    decreases s.len(),
{
    if s.len() > 0 && is_ws(s[0]) {
        let t = s.drop_first();
        assert forall|i: int| 0 <= i < t.len() implies #[trigger] t[i] <= '\u{7f}' by {
            assert(t[i] == s[i + 1]);
        }
        lemma_trim_start_ascii(t);
    }
}

proof fn lemma_trim_end_ascii(s: Seq<char>)
    requires
        is_ascii_text(s),
    ensures
        is_ascii_text(trim_end_seq(s)),
    decreases s.len(),
{
    if s.len() > 0 && is_ws(s.last()) {
        let t = s.drop_last();
        assert forall|i: int| 0 <= i < t.len() implies #[trigger] t[i] <= '\u{7f}' by {
            assert(t[i] == s[i]);
        }
        lemma_trim_end_ascii(t);
    }
}

/// Trimming an ASCII text leaves ASCII text.
pub proof fn lemma_trim_ascii(s: Seq<char>)
    requires
        is_ascii_text(s),
    ensures
        is_ascii_text(trim_seq(s)),
{
    lemma_trim_start_ascii(s);
    lemma_trim_end_ascii(trim_start_seq(s));
}

/// Calls `str::to_lowercase`. Its documentation maps each ASCII letter to its lowercase
/// form, so an ASCII text is lowercased letter by letter; other characters follow the full
/// Unicode mapping, which the name stands for.
#[verifier::external_body]
pub(crate) fn to_lowercase(s: &str) -> (res: String)
    ensures
        res@ == unicode_lowercase(s@),
        is_ascii_text(s@) ==> res@ == ascii_lowercase(s@),
{
    s.to_lowercase()
}

/// The characters with the Unicode `White_Space` property, which is what `char::is_whitespace` tests.
pub open spec fn is_ws(c: char) -> bool {
    ||| ('\u{9}' <= c && c <= '\u{d}')
    ||| c == ' '
    ||| c == '\u{85}'
    ||| c == '\u{a0}'
    ||| c == '\u{1680}'
    ||| ('\u{2000}' <= c && c <= '\u{200a}')
    ||| c == '\u{2028}'
    ||| c == '\u{2029}'
    ||| c == '\u{202f}'
    ||| c == '\u{205f}'
    ||| c == '\u{3000}'
}

/// Whether `c` is whitespace (Unicode `White_Space`).
pub fn is_whitespace(c: char) -> (res: bool)
    ensures
        res == is_ws(c),
{
    ('\u{9}' <= c && c <= '\u{d}') || c == ' ' || c == '\u{85}' || c == '\u{a0}' || c == '\u{1680}'
        || ('\u{2000}' <= c && c <= '\u{200a}') || c == '\u{2028}' || c == '\u{2029}' || c
        == '\u{202f}' || c == '\u{205f}' || c == '\u{3000}'
}

/// `s` without its leading whitespace.
pub open spec fn trim_start_seq(s: Seq<char>) -> Seq<char>
    decreases s.len(),
{
    if s.len() > 0 && is_ws(s[0]) {
        trim_start_seq(s.drop_first())
    } else {
        s
    }
}

/// `s` without its trailing whitespace.
pub open spec fn trim_end_seq(s: Seq<char>) -> Seq<char>
    decreases s.len(),
{
    if s.len() > 0 && is_ws(s.last()) {
        trim_end_seq(s.drop_last())
    } else {
        s
    }
}

/// `s` without leading and trailing whitespace, as `str::trim`.
pub open spec fn trim_seq(s: Seq<char>) -> Seq<char> {
    trim_end_seq(trim_start_seq(s))
}

/// The characters of `v` from `from` to `to`.
pub fn slice_chars(v: &Vec<char>, from: usize, to: usize) -> (res: Vec<char>)
    requires
        from <= to <= v@.len(),
    ensures
        res@ == v@.subrange(from as int, to as int),
{
    let mut out: Vec<char> = Vec::new();
    let mut k = from;
    while k < to
        invariant
            from <= k <= to <= v@.len(),
            out@ == v@.subrange(from as int, k as int),
        decreases to - k,
    {
        out.push(v[k]);
        k = k + 1;
        assert(v@.subrange(from as int, k as int) =~= v@.subrange(from as int, k - 1).push(v@[k - 1]));
    }
    out
}

pub proof fn lemma_trim_start_skip(s: Seq<char>, i: int)
    requires
        0 <= i <= s.len(),
        forall|j: int| 0 <= j < i ==> is_ws(s[j]),
    ensures
        trim_start_seq(s) == trim_start_seq(s.subrange(i, s.len() as int)),
    decreases i,
{
    if i > 0 {
        assert(is_ws(s[0]));
        let t = s.drop_first();
        assert forall|j: int| 0 <= j < i - 1 implies is_ws(t[j]) by {
            assert(t[j] == s[j + 1]);
        }
        lemma_trim_start_skip(t, i - 1);
        assert(t.subrange(i - 1, t.len() as int) =~= s.subrange(i, s.len() as int));
    } else {
        assert(s.subrange(0, s.len() as int) =~= s);
    }
}

proof fn lemma_trim_end_skip(s: Seq<char>, e: int)
    requires
        0 <= e <= s.len(),
        forall|j: int| e <= j < s.len() ==> is_ws(s[j]),
    ensures
        trim_end_seq(s) == trim_end_seq(s.subrange(0, e)),
    decreases s.len() - e,
{
    if e < s.len() {
        assert(is_ws(s.last()));
        let t = s.drop_last();
        lemma_trim_end_skip(t, e);
        assert(t.subrange(0, e) =~= s.subrange(0, e));
    } else {
        assert(s.subrange(0, e) =~= s);
    }
}

/// Removes leading and trailing whitespace.
pub fn trim_chars(v: &Vec<char>) -> (res: Vec<char>)
    ensures
        res@ == trim_seq(v@),
{
    let n = v.len();
    let mut a: usize = 0;
    while a < n && is_whitespace(v[a])
        invariant
            n == v@.len(),
            a <= n,
            forall|j: int| 0 <= j < a ==> is_ws(v@[j]),
        decreases n - a,
    {
        a = a + 1;
    }
    proof {
        lemma_trim_start_skip(v@, a as int);
    }
    let ghost t = v@.subrange(a as int, n as int);
    assert(trim_start_seq(t) == t);
    let mut e: usize = n;
    while e > a && is_whitespace(v[e - 1])
        invariant
            n == v@.len(),
            a <= e <= n,
            forall|j: int| e <= j < n ==> is_ws(v@[j]),
        decreases e,
    {
        e = e - 1;
    }
    proof {
        lemma_trim_end_skip(t, e - a);
        assert(t.subrange(0, e - a) =~= v@.subrange(a as int, e as int));
        let u = v@.subrange(a as int, e as int);
        assert(trim_end_seq(u) == u);
    }
    slice_chars(v, a, e)
}

/// The prefix of `s` before the first `c` (all of `s` without one), as `split(c).next()`.
pub open spec fn before_first(s: Seq<char>, c: char) -> Seq<char>
    decreases s.len(),
{
    if s.len() == 0 {
        s
    } else if s[0] == c {
        seq![]
    } else {
        seq![s[0]] + before_first(s.drop_first(), c)
    }
}

proof fn lemma_before_first_prefix(s: Seq<char>, c: char, i: int)
    requires
        0 <= i <= s.len(),
        forall|j: int| 0 <= j < i ==> s[j] != c,
    ensures
        i < s.len() && s[i] == c ==> before_first(s, c) == s.subrange(0, i),
        i == s.len() ==> before_first(s, c) == s,
    decreases i,
{
    if i > 0 {
        let t = s.drop_first();
        assert forall|j: int| 0 <= j < i - 1 implies t[j] != c by {
            assert(t[j] == s[j + 1]);
        }
        lemma_before_first_prefix(t, c, i - 1);
        assert(seq![s[0]] + t.subrange(0, i - 1) =~= s.subrange(0, i));
        assert(seq![s[0]] + t =~= s);
    } else {
        assert(s.subrange(0, 0) =~= Seq::<char>::empty());
        if s.len() == 0 {
        }
    }
}

/// The characters before the first `c`.
pub fn before_first_chars(v: &Vec<char>, c: char) -> (res: Vec<char>)
    ensures
        res@ == before_first(v@, c),
{
    let n = v.len();
    let mut i: usize = 0;
    while i < n && v[i] != c
        invariant
            n == v@.len(),
            i <= n,
            forall|j: int| 0 <= j < i ==> v@[j] != c,
        decreases n - i,
    {
        i = i + 1;
    }
    proof {
        lemma_before_first_prefix(v@, c, i as int);
        assert(v@.subrange(0, n as int) =~= v@);
    }
    slice_chars(v, 0, i)
}

/// Whether two character vectors are equal.
pub fn chars_eq(a: &Vec<char>, b: &Vec<char>) -> (res: bool)
    ensures
        res == (a@ == b@),
{
    if a.len() != b.len() {
        return false;
    }
    let mut i: usize = 0;
    while i < a.len()
        invariant
            a@.len() == b@.len(),
            i <= a@.len(),
            forall|j: int| 0 <= j < i ==> a@[j] == b@[j],
        decreases a.len() - i,
    {
        if a[i] != b[i] {
            return false;
        }
        i = i + 1;
    }
    assert(a@ =~= b@);
    true
}

/// Whether the characters of `v` equal those of `s`.
pub fn chars_eq_str(v: &Vec<char>, s: &str) -> (res: bool)
    ensures
        res == (v@ == s@),
{
    let w = chars_of(s);
    chars_eq(v, &w)
}

/// Whether `p` occurs in `s` at `i`.
pub open spec fn seq_at(s: Seq<char>, i: int, p: Seq<char>) -> bool {
    0 <= i && i + p.len() <= s.len() && s.subrange(i, i + p.len()) == p
}

/// Whether `p` occurs in `v` at `i`.
pub fn chars_at(v: &Vec<char>, i: usize, p: &Vec<char>) -> (res: bool)
    ensures
        res == seq_at(v@, i as int, p@),
{
    let n = v.len();
    if i > n || p.len() > n - i {
        return false;
    }
    let mut k: usize = 0;
    while k < p.len()
        invariant
            n == v@.len(),
            i + p@.len() <= n,
            k <= p@.len(),
            forall|j: int| 0 <= j < k ==> v@[i + j] == p@[j],
        decreases p.len() - k,
    {
        if v[i + k] != p[k] {
            assert(v@.subrange(i as int, i + p@.len())[k as int] != p@[k as int]);
            return false;
        }
        k = k + 1;
    }
    assert(v@.subrange(i as int, i + p@.len()) =~= p@);
    true
}

/// Whether the text of `s` occurs in `v` at `i`.
pub fn chars_at_str(v: &Vec<char>, i: usize, s: &str) -> (res: bool)
    ensures
        res == seq_at(v@, i as int, s@),
{
    let p = chars_of(s);
    chars_at(v, i, &p)
}

/// Appends the characters of `s` to `out`.
pub fn push_str(out: &mut Vec<char>, s: &str)
    ensures
        final(out)@ == old(out)@ + s@,
{
    let p = chars_of(s);
    push_chars(out, &p);
}

/// Appends the characters of `p` to `out`.
pub fn push_chars(out: &mut Vec<char>, p: &Vec<char>)
    ensures
        final(out)@ == old(out)@ + p@,
{
    let mut k: usize = 0;
    while k < p.len()
        invariant
            k <= p@.len(),
            out@ == old(out)@ + p@.subrange(0, k as int),
        decreases p.len() - k,
    {
        out.push(p[k]);
        k = k + 1;
        assert(p@.subrange(0, k as int) =~= p@.subrange(0, k - 1).push(p@[k - 1]));
    }
    assert(p@.subrange(0, p@.len() as int) =~= p@);
}

} // verus!

verus! {

/// The first position at or after `i` that does not hold whitespace (or the end).
pub open spec fn skip_ws_from(s: Seq<char>, i: nat) -> nat
    decreases s.len() - i,
{
    if i < s.len() && is_ws(s[i as int]) {
        skip_ws_from(s, i + 1)
    } else {
        i
    }
}

/// The first position at or after `i` in `v` that does not hold whitespace (or the end).
pub fn skip_ws(v: &Vec<char>, i: usize) -> (res: usize)
    ensures
        res == skip_ws_from(v@, i as nat),
        res >= i,
        i <= v@.len() ==> res <= v@.len(),
{
    let mut k = i;
    while k < v.len() && is_whitespace(v[k])
        invariant
            k >= i,
            i <= v@.len() ==> k <= v@.len(),
            skip_ws_from(v@, k as nat) == skip_ws_from(v@, i as nat),
        decreases v.len() - k,
    {
        k = k + 1;
    }
    k
}

/// Skipping whitespace inside `a` gives the same result inside any `x + a + y`
/// when it stops before the end of `a`.
pub proof fn lemma_skip_ws_shift(x: Seq<char>, a: Seq<char>, y: Seq<char>, i: nat)
    requires
        skip_ws_from(a, i) < a.len(),
    ensures
        skip_ws_from(x + a + y, x.len() + i) == x.len() + skip_ws_from(a, i),
    decreases a.len() - i,
{
    let s = x + a + y;
    assert(s[x.len() + i as int] == a[i as int]);
    if i < a.len() && is_ws(a[i as int]) {
        lemma_skip_ws_shift(x, a, y, i + 1);
    }
}

} // verus!

verus! {

/// The position of the last `c` in `s`, if any.
pub open spec fn last_index(s: Seq<char>, c: char) -> Option<int>
    decreases s.len(),
{
    if s.len() == 0 {
        None
    } else if s.last() == c {
        Some(s.len() - 1)
    } else {
        last_index(s.drop_last(), c)
    }
}

/// The text after the last `c` in `s`, if `s` holds a `c` (as `rsplit_once(c)`'s second part).
pub open spec fn after_last(s: Seq<char>, c: char) -> Option<Seq<char>> {
    match last_index(s, c) {
        Some(k) => Some(s.subrange(k + 1, s.len() as int)),
        None => None,
    }
}

proof fn lemma_last_index_bounds(s: Seq<char>, c: char)
    ensures
        last_index(s, c) matches Some(k) ==> 0 <= k < s.len() && s[k] == c,
    decreases s.len(),
{
    if s.len() > 0 && s.last() != c {
        lemma_last_index_bounds(s.drop_last(), c);
    }
}

proof fn lemma_last_index_take(s: Seq<char>, c: char, m: int)
    requires
        0 <= m <= s.len(),
        forall|j: int| m <= j < s.len() ==> s[j] != c,
    ensures
        last_index(s, c) == last_index(s.take(m), c),
    decreases s.len() - m,
{
    if m < s.len() {
        lemma_last_index_take(s.drop_last(), c, m);
        assert(s.drop_last().take(m) =~= s.take(m));
    } else {
        assert(s.take(m) =~= s);
    }
}

/// The position of the last `c` in `v`, if any.
pub fn last_index_of(v: &Vec<char>, c: char) -> (res: Option<usize>)
    ensures
        match res {
            Some(k) => last_index(v@, c) == Some(k as int),
            None => last_index(v@, c) is None,
        },
{
    let mut k: usize = v.len();
    while k > 0
        invariant
            k <= v@.len(),
            forall|j: int| k <= j < v@.len() ==> v@[j] != c,
        decreases k,
    {
        if v[k - 1] == c {
            proof {
                lemma_last_index_take(v@, c, k as int);
                assert(v@.take(k as int).last() == c);
            }
            return Some(k - 1);
        }
        k = k - 1;
    }
    proof {
        lemma_last_index_take(v@, c, 0);
    }
    None
}

/// The text after the last `c` in `v`, if `v` holds a `c`.
pub fn after_last_chars(v: &Vec<char>, c: char) -> (res: Option<Vec<char>>)
    ensures
        match res {
            Some(w) => after_last(v@, c) == Some(w@),
            None => after_last(v@, c) is None,
        },
{
    proof {
        lemma_last_index_bounds(v@, c);
    }
    match last_index_of(v, c) {
        Some(k) => {
            let n = v.len();
            assert(k < n);
            Some(slice_chars(v, k + 1, n))
        },
        None => None,
    }
}

/// Whether `c` is alphanumeric (`char::is_alphanumeric`: Unicode `Alphabetic` or `Numeric`).
pub uninterp spec fn is_alphanumeric(c: char) -> bool;

/// ASCII letters and digits.
pub open spec fn is_ascii_alnum(c: char) -> bool {
    ('a' <= c && c <= 'z') || ('A' <= c && c <= 'Z') || ('0' <= c && c <= '9')
}

/// Calls `char::is_alphanumeric`.
#[verifier::external_body]
pub(crate) fn char_is_alphanumeric(c: char) -> (res: bool)
    ensures
        res == is_alphanumeric(c),
        (c as u32) < 128 ==> (res == is_ascii_alnum(c)),
{
    c.is_alphanumeric()
}

/// The alphanumeric characters of `s`, in order.
pub open spec fn filter_alnum(s: Seq<char>) -> Seq<char>
    decreases s.len(),
{
    if s.len() == 0 {
        s
    } else if is_alphanumeric(s.last()) {
        filter_alnum(s.drop_last()).push(s.last())
    } else {
        filter_alnum(s.drop_last())
    }
}

/// Keeps the alphanumeric characters of `v`; none of them is `/`, `\` or `.`.
pub fn filter_alnum_chars(v: &Vec<char>) -> (res: Vec<char>)
    ensures
        res@ == filter_alnum(v@),
        forall|j: int| 0 <= j < res@.len() ==> res@[j] != '/' && res@[j] != '\\' && res@[j] != '.',
{
    let mut out: Vec<char> = Vec::new();
    let mut k: usize = 0;
    while k < v.len()
        invariant
            k <= v@.len(),
            out@ == filter_alnum(v@.take(k as int)),
            forall|j: int| 0 <= j < out@.len() ==> out@[j] != '/' && out@[j] != '\\' && out@[j] != '.',
        decreases v.len() - k,
    {
        assert(v@.take(k + 1).drop_last() =~= v@.take(k as int));
        assert(v@.take(k + 1).last() == v@[k as int]);
        if char_is_alphanumeric(v[k]) {
            out.push(v[k]);
        }
        k = k + 1;
    }
    assert(v@.take(v@.len() as int) =~= v@);
    out
}

/// The lowercase hexadecimal digit for `d < 16`.
pub open spec fn hex_digit(d: nat) -> char {
    if d < 10 {
        ((d + 48) as u8) as char
    } else {
        ((d + 87) as u8) as char
    }
}

/// The last `n` hexadecimal digits of `h`, most significant first (zero-padded).
pub open spec fn hex_digits(h: nat, n: nat) -> Seq<char>
    decreases n,
{
    if n == 0 {
        seq![]
    } else {
        hex_digits(h / 16, (n - 1) as nat).push(hex_digit(h % 16))
    }
}

/// `h` as sixteen lowercase hexadecimal digits (as `format!("{:016x}", h)`).
pub fn hex16(h: u64) -> (res: Vec<char>)
    ensures
        res@ == hex_digits(h as nat, 16),
{
    let mut acc: Vec<char> = Vec::new();
    let mut x: u64 = h;
    let mut rem: usize = 16;
    while rem > 0
        invariant
            rem <= 16,
            hex_digits(h as nat, 16) == hex_digits(x as nat, rem as nat) + acc@,
        decreases rem,
    {
        let d = x % 16;
        let c: char = if d < 10 {
            ((d as u8) + 48) as char
        } else {
            ((d as u8) + 87) as char
        };
        assert(c == hex_digit(x as nat % 16));
        let ghost old_acc = acc@;
        acc.insert(0, c);
        assert(acc@ =~= seq![c] + old_acc);
        assert(hex_digits(x as nat, rem as nat) == hex_digits((x / 16) as nat, (rem - 1) as nat).push(c));
        assert(hex_digits((x / 16) as nat, (rem - 1) as nat).push(c) + old_acc =~= hex_digits((x / 16) as nat, (rem - 1) as nat) + acc@);
        x = x / 16;
        rem = rem - 1;
    }
    assert(hex_digits(x as nat, 0) + acc@ =~= acc@);
    acc
}

} // verus!

verus! {

/// `s` without its leading `c`s.
pub open spec fn trim_start_char(s: Seq<char>, c: char) -> Seq<char>
    decreases s.len(),
{
    if s.len() > 0 && s[0] == c {
        trim_start_char(s.drop_first(), c)
    } else {
        s
    }
}

/// `s` without its trailing `c`s.
pub open spec fn trim_end_char(s: Seq<char>, c: char) -> Seq<char>
    decreases s.len(),
{
    if s.len() > 0 && s.last() == c {
        trim_end_char(s.drop_last(), c)
    } else {
        s
    }
}

/// `s` without leading and trailing `c`s (as `str::trim_matches(c)`).
pub open spec fn trim_matches_seq(s: Seq<char>, c: char) -> Seq<char> {
    trim_end_char(trim_start_char(s, c), c)
}

proof fn lemma_trim_start_char_skip(s: Seq<char>, c: char, i: int)
    requires
        0 <= i <= s.len(),
        forall|j: int| 0 <= j < i ==> s[j] == c,
    ensures
        trim_start_char(s, c) == trim_start_char(s.subrange(i, s.len() as int), c),
    decreases i,
{
    if i > 0 {
        let t = s.drop_first();
        assert forall|j: int| 0 <= j < i - 1 implies t[j] == c by {
            assert(t[j] == s[j + 1]);
        }
        lemma_trim_start_char_skip(t, c, i - 1);
        assert(t.subrange(i - 1, t.len() as int) =~= s.subrange(i, s.len() as int));
    } else {
        assert(s.subrange(0, s.len() as int) =~= s);
    }
}

proof fn lemma_trim_end_char_skip(s: Seq<char>, c: char, e: int)
    requires
        0 <= e <= s.len(),
        forall|j: int| e <= j < s.len() ==> s[j] == c,
    ensures
        trim_end_char(s, c) == trim_end_char(s.subrange(0, e), c),
    decreases s.len() - e,
{
    if e < s.len() {
        let t = s.drop_last();
        lemma_trim_end_char_skip(t, c, e);
        assert(t.subrange(0, e) =~= s.subrange(0, e));
    } else {
        assert(s.subrange(0, e) =~= s);
    }
}

/// Removes leading and trailing `c`s.
pub fn trim_matches_chars(v: &Vec<char>, c: char) -> (res: Vec<char>)
    ensures
        res@ == trim_matches_seq(v@, c),
{
    let n = v.len();
    let mut a: usize = 0;
    while a < n && v[a] == c
        invariant
            n == v@.len(),
            a <= n,
            forall|j: int| 0 <= j < a ==> v@[j] == c,
        decreases n - a,
    {
        a = a + 1;
    }
    proof {
        lemma_trim_start_char_skip(v@, c, a as int);
    }
    let ghost t = v@.subrange(a as int, n as int);
    assert(trim_start_char(t, c) == t);
    let mut e: usize = n;
    while e > a && v[e - 1] == c
        invariant
            n == v@.len(),
            a <= e <= n,
            forall|j: int| e <= j < n ==> v@[j] == c,
        decreases e,
    {
        e = e - 1;
    }
    proof {
        lemma_trim_end_char_skip(t, c, e - a);
        assert(t.subrange(0, e - a) =~= v@.subrange(a as int, e as int));
        let u = v@.subrange(a as int, e as int);
        assert(trim_end_char(u, c) == u);
    }
    slice_chars(v, a, e)
}

} // verus!

verus! {

/// Whether `p` occurs somewhere in `s`.
pub open spec fn seq_contains(s: Seq<char>, p: Seq<char>) -> bool {
    exists|i: int| seq_at(s, i, p)
}

/// Whether `s` ends with `p`.
pub open spec fn seq_ends_with(s: Seq<char>, p: Seq<char>) -> bool {
    seq_at(s, s.len() - p.len(), p)
}

/// The first position at or after `i` where `p` occurs in `s`, if any.
pub open spec fn index_from(s: Seq<char>, p: Seq<char>, i: int) -> Option<int>
    decreases s.len() + 1 - i,
{
    if i < 0 || i + p.len() > s.len() {
        None
    } else if seq_at(s, i, p) {
        Some(i)
    } else {
        index_from(s, p, i + 1)
    }
}

proof fn lemma_index_from_found(s: Seq<char>, p: Seq<char>, i: int)
    requires
        0 <= i,
    ensures
        index_from(s, p, i) matches Some(k) ==> i <= k && seq_at(s, k, p),
        index_from(s, p, i) is None ==> forall|k: int| i <= k ==> !seq_at(s, k, p),
    decreases s.len() + 1 - i,
{
    if i + p.len() <= s.len() && !seq_at(s, i, p) {
        lemma_index_from_found(s, p, i + 1);
        assert forall|k: int| i <= k && index_from(s, p, i) is None implies !seq_at(s, k, p) by {
            if k == i {
            }
        }
    }
}

/// The first position at or after `i` where `p` occurs in `v`, if any.
pub fn find_from(v: &Vec<char>, p: &Vec<char>, i: usize) -> (res: Option<usize>)
    ensures
        match res {
            Some(k) => index_from(v@, p@, i as int) == Some(k as int),
            None => index_from(v@, p@, i as int) is None,
        },
{
    let n = v.len();
    if i > n {
        return None;
    }
    let mut k: usize = i;
    while p.len() <= n - k
        invariant
            n == v@.len(),
            i <= k <= n,
            index_from(v@, p@, i as int) == index_from(v@, p@, k as int),
        decreases n - k,
    {
        if chars_at(v, k, p) {
            return Some(k);
        }
        if k == n {
            proof {
                assert(v@.subrange(n as int, n as int) =~= p@);
            }
            return None;
        }
        k = k + 1;
    }
    None
}

/// Whether the text of `s` occurs somewhere in `v`.
pub fn chars_contains_str(v: &Vec<char>, s: &str) -> (res: bool)
    ensures
        res == seq_contains(v@, s@),
{
    let p = chars_of(s);
    let r = find_from(v, &p, 0);
    proof {
        lemma_index_from_found(v@, p@, 0);
    }
    r.is_some()
}

/// Whether `v` ends with the text of `s`.
pub fn chars_ends_with_str(v: &Vec<char>, s: &str) -> (res: bool)
    ensures
        res == seq_ends_with(v@, s@),
{
    let p = chars_of(s);
    if p.len() > v.len() {
        return false;
    }
    chars_at(v, v.len() - p.len(), &p)
}

} // verus!
