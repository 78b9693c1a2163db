//! Character-level text handling shared by the parsers and renderers.
//!
//! Text is modelled as `Seq<char>`. The spec functions here state what the
//! `str` operations the parser relies on mean (`trim`, `lines`, `starts_with`,
//! `split_whitespace`, `parse::<u16>`, ...) and the executable functions
//! compute them on `Vec<char>`.

use vstd::prelude::*;

verus! {

// ---------------------------------------------------------------------------
// Strings and character vectors
// ---------------------------------------------------------------------------

/// Appends one character to a `String` (`String::push`).
#[verifier::external_body]
pub(crate) fn push_char(s: &mut String, c: char)
    ensures
        final(s)@ == old(s)@.push(c),
{
    s.push(c);
}

/// The characters of `s`, in order.
pub fn chars_of(s: &str) -> (v: Vec<char>)
    ensures
        v@ == s@,
{
    let mut v: Vec<char> = Vec::new();
    for c in it: s.chars()
        invariant
            v@ == it.seq().take(it.index() as int),
            it.seq() == s@,
    {
        v.push(c);
    }
    v
}

/// The text made of the characters `v[lo..hi]`.
pub fn string_of_range(v: &Vec<char>, lo: usize, hi: usize) -> (s: String)
    requires
        lo <= hi <= v@.len(),
    ensures
        s@ == v@.subrange(lo as int, hi as int),
{
    let mut s = String::new();
    let mut i = lo;
    while i < hi
        invariant
            lo <= i <= hi <= v@.len(),
            s@ == v@.subrange(lo as int, i as int),
        decreases hi - i,
    {
        push_char(&mut s, v[i]);
        assert(v@.subrange(lo as int, i + 1) =~= v@.subrange(lo as int, i as int).push(v@[i as int]));
        i = i + 1;
    }
    s
}

/// The text made of the characters of `v`.
pub fn string_of(v: &Vec<char>) -> (s: String)
    ensures
        s@ == v@,
{
    let s = string_of_range(v, 0, v.len());
    assert(v@.subrange(0, v@.len() as int) =~= v@);
    s
}

/// The characters `v[lo..hi]` as a vector of their own.
pub fn sub_vec(v: &Vec<char>, lo: usize, hi: usize) -> (r: Vec<char>)
    requires
        lo <= hi <= v@.len(),
    ensures
        r@ == v@.subrange(lo as int, hi as int),
{
    let mut r: Vec<char> = Vec::new();
    let mut i = lo;
    while i < hi
        invariant
            lo <= i <= hi <= v@.len(),
            r@ == v@.subrange(lo as int, i as int),
        decreases hi - i,
    {
        r.push(v[i]);
        assert(v@.subrange(lo as int, i + 1) =~= v@.subrange(lo as int, i as int).push(v@[i as int]));
        i = i + 1;
    }
    r
}

/// Appends the characters of `t` to `s`.
pub fn push_str(s: &mut String, t: &str)
    ensures
        final(s)@ == old(s)@ + t@,
{
    s.append(t);
}

/// Appends the characters of `v` to `s`.
pub fn push_chars(s: &mut String, v: &Vec<char>)
    ensures
        final(s)@ == old(s)@ + v@,
{
    let ghost s0 = s@;
    let mut i: usize = 0;
    while i < v.len()
        invariant
            i <= v@.len(),
            s@ == s0 + v@.subrange(0, i as int),
        decreases v@.len() - i,
    {
        push_char(s, v[i]);
        assert(v@.subrange(0, i + 1) =~= v@.subrange(0, i as int).push(v@[i as int]));
        i = i + 1;
    }
    assert(v@.subrange(0, v@.len() as int) =~= v@);
}

/// Whether `v` holds exactly the characters of `lit`.
pub fn eq_str(v: &Vec<char>, lit: &str) -> (r: bool)
    ensures
        r == (v@ == lit@),
{
    let w = chars_of(lit);
    if v.len() != w.len() {
        return false;
    }
    let mut i: usize = 0;
    while i < v.len()
        invariant
            v@.len() == w@.len(),
            w@ == lit@,
            i <= v@.len(),
            forall|j: int| 0 <= j < i ==> v@[j] == w@[j],
        decreases v@.len() - i,
    {
        if v[i] != w[i] {
            return false;
        }
        i = i + 1;
    }
    assert(v@ =~= w@);
    true
}

/// Whether two texts are equal.
pub fn eq_string(a: &String, b: &String) -> (r: bool)
    ensures
        r == (a@ == b@),
{
    *a == *b
}

// ---------------------------------------------------------------------------
// Whitespace and trimming
// ---------------------------------------------------------------------------

/// `char::is_whitespace`: the Unicode `White_Space` property.
pub open spec fn is_ws(c: char) -> bool {
    ||| c == '\t'
    ||| c == '\n'
    ||| c == '\x0B'
    ||| c == '\x0C'
    ||| c == '\r'
    ||| c == ' '
    ||| c == '\u{85}'
    ||| c == '\u{A0}'
    ||| c == '\u{1680}'
    ||| ('\u{2000}' <= c && c <= '\u{200A}')
    ||| c == '\u{2028}'
    ||| c == '\u{2029}'
    ||| c == '\u{202F}'
    ||| c == '\u{205F}'
    ||| c == '\u{3000}'
}

/// Decides `is_ws`.
pub fn is_whitespace(c: char) -> (r: bool)
    ensures
        r == is_ws(c),
{
    c == '\t' || c == '\n' || c == '\x0B' || c == '\x0C' || c == '\r' || c == ' ' || c
        == '\u{85}' || c == '\u{A0}' || c == '\u{1680}' || ('\u{2000}' <= c && c <= '\u{200A}')
        || c == '\u{2028}' || c == '\u{2029}' || c == '\u{202F}' || c == '\u{205F}' || c
        == '\u{3000}'
}

/// Classes of characters that the scanners skip over.
pub enum CharClass {
    /// `char::is_whitespace`.
    Space,
    /// Not `char::is_whitespace`.
    NonSpace,
    /// The double quote.
    Quote,
}

/// Whether `c` is in the class `k`.
pub open spec fn in_class(c: char, k: CharClass) -> bool {
    match k {
        CharClass::Space => is_ws(c),
        CharClass::NonSpace => !is_ws(c),
        CharClass::Quote => c == '"',
    }
}

/// The first index at or after `i` whose character is not in `p`
/// (or the length).
pub open spec fn skip_while(s: Seq<char>, i: int, p: CharClass) -> int
    decreases s.len() - i,
{
    if i < 0 || i >= s.len() {
        if i < 0 { 0 } else { s.len() as int }
    } else if in_class(s[i], p) {
        skip_while(s, i + 1, p)
    } else {
        i
    }
}

/// The smallest `k` in `[lo, j]` such that `s[k..j]` is in `p`
/// throughout.
pub open spec fn back_while(s: Seq<char>, j: int, lo: int, p: CharClass) -> int
    decreases j - lo,
{
    if j <= lo {
        lo
    } else if in_class(s[j - 1], p) {
        back_while(s, j - 1, lo, p)
    } else {
        j
    }
}

/// `s` without the characters of class `p` at both ends
/// (`str::trim_matches`).
pub open spec fn trim_by(s: Seq<char>, p: CharClass) -> Seq<char> {
    let a = skip_while(s, 0, p);
    s.subrange(a, back_while(s, s.len() as int, a, p))
}

/// `str::trim`.
pub open spec fn trim(s: Seq<char>) -> Seq<char> {
    trim_by(s, CharClass::Space)
}

/// `str::trim_matches('"')`.
pub open spec fn trim_quotes(s: Seq<char>) -> Seq<char> {
    trim_by(s, CharClass::Quote)
}

pub proof fn lemma_skip_while_bounds(s: Seq<char>, i: int, p: CharClass)
    requires
        0 <= i <= s.len(),
    ensures
        i <= skip_while(s, i, p) <= s.len(),
        forall|k: int| i <= k < skip_while(s, i, p) ==> in_class(#[trigger] s[k], p),
        skip_while(s, i, p) < s.len() ==> !in_class(s[skip_while(s, i, p)], p),
    decreases s.len() - i,
{
    if i < s.len() && in_class(s[i], p) {
        lemma_skip_while_bounds(s, i + 1, p);
    }
}

pub proof fn lemma_back_while_bounds(s: Seq<char>, j: int, lo: int, p: CharClass)
    requires
        0 <= lo <= j <= s.len(),
    ensures
        lo <= back_while(s, j, lo, p) <= j,
        forall|k: int| back_while(s, j, lo, p) <= k < j ==> in_class(#[trigger] s[k], p),
        back_while(s, j, lo, p) > lo ==> !in_class(s[back_while(s, j, lo, p) - 1], p),
    decreases j - lo,
{
    if j > lo && in_class(s[j - 1], p) {
        lemma_back_while_bounds(s, j - 1, lo, p);
    }
}

/// The bounds of `trim(v)` within `v`.
pub fn trim_bounds(v: &Vec<char>) -> (r: (usize, usize))
    ensures
        r.0 == skip_while(v@, 0, CharClass::Space),
        r.1 == back_while(v@, v@.len() as int, r.0 as int, CharClass::Space),
        r.0 <= r.1 <= v@.len(),
{
    let mut a: usize = 0;
    while a < v.len() && is_whitespace(v[a])
        invariant
            a <= v@.len(),
            skip_while(v@, 0, CharClass::Space) == skip_while(v@, a as int, CharClass::Space),
        decreases v@.len() - a,
    {
        a = a + 1;
    }
    let mut b: usize = v.len();
    while b > a && is_whitespace(v[b - 1])
        invariant
            a <= b <= v@.len(),
            back_while(v@, v@.len() as int, a as int, CharClass::Space) == back_while(v@, b as int, a as int, CharClass::Space),
        decreases b - a,
    {
        b = b - 1;
    }
    (a, b)
}

/// `str::trim`.
pub fn trim_vec(v: &Vec<char>) -> (r: Vec<char>)
    ensures
        r@ == trim(v@),
{
    let (a, b) = trim_bounds(v);
    sub_vec(v, a, b)
}

/// `str::trim_matches('"')`.
pub fn trim_quotes_vec(v: &Vec<char>) -> (r: Vec<char>)
    ensures
        r@ == trim_quotes(v@),
{
    let mut a: usize = 0;
    while a < v.len() && v[a] == '"'
        invariant
            a <= v@.len(),
            skip_while(v@, 0, CharClass::Quote) == skip_while(v@, a as int, CharClass::Quote),
        decreases v@.len() - a,
    {
        a = a + 1;
    }
    let mut b: usize = v.len();
    while b > a && v[b - 1] == '"'
        invariant
            a <= b <= v@.len(),
            back_while(v@, v@.len() as int, a as int, CharClass::Quote) == back_while(v@, b as int, a as int, CharClass::Quote),
        decreases b - a,
    {
        b = b - 1;
    }
    sub_vec(v, a, b)
}

// ---------------------------------------------------------------------------
// Prefixes and searching
// ---------------------------------------------------------------------------

/// `str::starts_with`.
pub open spec fn starts_with(s: Seq<char>, p: Seq<char>) -> bool {
    p.len() <= s.len() && s.subrange(0, p.len() as int) == p
}

/// Decides `starts_with` for a literal prefix.
pub fn starts_with_str(v: &Vec<char>, lit: &str) -> (r: bool)
    ensures
        r == starts_with(v@, lit@),
{
    let w = chars_of(lit);
    if w.len() > v.len() {
        return false;
    }
    let mut i: usize = 0;
    while i < w.len()
        invariant
            w@ == lit@,
            w@.len() <= v@.len(),
            i <= w@.len(),
            forall|j: int| 0 <= j < i ==> v@[j] == w@[j],
        decreases w@.len() - i,
    {
        if v[i] != w[i] {
            assert(v@.subrange(0, w@.len() as int)[i as int] != w@[i as int]);
            return false;
        }
        i = i + 1;
    }
    assert(v@.subrange(0, w@.len() as int) =~= w@);
    true
}

/// `s` after removing the prefix `p` as long as it occurs
/// (`str::trim_start_matches` with a text pattern).
pub open spec fn strip_prefix_all(s: Seq<char>, p: Seq<char>) -> Seq<char>
    decreases s.len(),
{
    if p.len() > 0 && starts_with(s, p) {
        strip_prefix_all(s.subrange(p.len() as int, s.len() as int), p)
    } else {
        s
    }
}

/// `str::trim_start_matches` for a literal pattern.
pub fn strip_prefix_all_vec(v: &Vec<char>, lit: &str) -> (r: Vec<char>)
    ensures
        r@ == strip_prefix_all(v@, lit@),
{
    let w = chars_of(lit);
    let mut cur = sub_vec(v, 0, v.len());
    assert(v@.subrange(0, v@.len() as int) =~= v@);
    if w.len() == 0 {
        return cur;
    }
    while starts_with_str(&cur, lit)
        invariant
            w@ == lit@,
            w@.len() > 0,
            strip_prefix_all(cur@, lit@) == strip_prefix_all(v@, lit@),
        decreases cur@.len(),
    {
        cur = sub_vec(&cur, w.len(), cur.len());
    }
    cur
}

/// The first index at or after `i` holding `c`, or the length.
pub open spec fn find_from(s: Seq<char>, c: char, i: int) -> int
    decreases s.len() - i,
{
    if i < 0 || i >= s.len() {
        if i < 0 { 0 } else { s.len() as int }
    } else if s[i] == c {
        i
    } else {
        find_from(s, c, i + 1)
    }
}

pub proof fn lemma_find_from_bounds(s: Seq<char>, c: char, i: int)
    requires
        0 <= i <= s.len(),
    ensures
        i <= find_from(s, c, i) <= s.len(),
        forall|k: int| i <= k < find_from(s, c, i) ==> #[trigger] s[k] != c,
        find_from(s, c, i) < s.len() ==> s[find_from(s, c, i)] == c,
    decreases s.len() - i,
{
    if i < s.len() && s[i] != c {
        lemma_find_from_bounds(s, c, i + 1);
    }
}

/// Computes `find_from`.
pub fn find_char_from(v: &Vec<char>, c: char, i: usize) -> (r: usize)
    requires
        i <= v@.len(),
    ensures
        r == find_from(v@, c, i as int),
{
    let mut j = i;
    while j < v.len() && v[j] != c
        invariant
            i <= j <= v@.len(),
            find_from(v@, c, i as int) == find_from(v@, c, j as int),
        decreases v@.len() - j,
    {
        j = j + 1;
    }
    j
}

// ---------------------------------------------------------------------------
// Lines
// ---------------------------------------------------------------------------

/// The texts held by a vector of character vectors.
pub open spec fn seqs_view(v: Seq<Vec<char>>) -> Seq<Seq<char>> {
    v.map_values(|x: Vec<char>| x@)
}

/// `l` without one trailing carriage return.
pub open spec fn strip_cr(l: Seq<char>) -> Seq<char> {
    if l.len() > 0 && l.last() == '\r' {
        l.drop_last()
    } else {
        l
    }
}

/// The lines of `s` from index `i` on (`str::lines`): pieces ended by
/// `'\n'`, each without its `'\n'` and one `'\r'` before it; a last piece
/// with no `'\n'` after it is kept as it is, and an empty one is dropped.
pub open spec fn lines_from(s: Seq<char>, i: int) -> Seq<Seq<char>>
    decreases s.len() - i,
{
    if i < 0 || i >= s.len() {
        Seq::empty()
    } else {
        let e = find_from(s, '\n', i);
        if e >= s.len() {
            seq![s.subrange(i, s.len() as int)]
        } else {
            proof {
                lemma_find_from_bounds(s, '\n', i);
            }
            seq![strip_cr(s.subrange(i, e))] + lines_from(s, e + 1)
        }
    }
}

/// `str::lines`.
pub open spec fn lines(s: Seq<char>) -> Seq<Seq<char>> {
    lines_from(s, 0)
}

/// The lines of `v`.
pub fn lines_vec(v: &Vec<char>) -> (r: Vec<Vec<char>>)
    ensures
        seqs_view(r@) == lines(v@),
{
    let mut r: Vec<Vec<char>> = Vec::new();
    let mut i: usize = 0;
    while i < v.len()
        invariant
            i <= v@.len(),
            lines(v@) == seqs_view(r@) + lines_from(v@, i as int),
        decreases v@.len() - i,
    {
        let e = find_char_from(v, '\n', i);
        proof {
            lemma_find_from_bounds(v@, '\n', i as int);
        }
        let ghost r0 = seqs_view(r@);
        if e >= v.len() {
            let line = sub_vec(v, i, v.len());
            r.push(line);
            assert(seqs_view(r@) =~= r0.push(line@));
            assert(lines_from(v@, v@.len() as int) =~= Seq::<Seq<char>>::empty());
            i = v.len();
        } else {
            let mut line = sub_vec(v, i, e);
            if line.len() > 0 && line[line.len() - 1] == '\r' {
                line.pop();
                assert(line@ =~= strip_cr(v@.subrange(i as int, e as int)));
            }
            r.push(line);
            assert(seqs_view(r@) =~= r0.push(line@));
            assert(r0.push(line@) + lines_from(v@, e + 1) =~= r0 + (seq![line@] + lines_from(
                v@,
                e + 1,
            )));
            i = e + 1;
        }
    }
    assert(lines_from(v@, i as int) =~= Seq::<Seq<char>>::empty());
    assert(seqs_view(r@) + Seq::<Seq<char>>::empty() =~= seqs_view(r@));
    r
}

// ---------------------------------------------------------------------------
// Words
// ---------------------------------------------------------------------------

/// The whitespace-separated words of `s` from index `i` on
/// (`str::split_whitespace`).
pub open spec fn words_from(s: Seq<char>, i: int) -> Seq<Seq<char>>
    decreases s.len() - i,
{
    if i < 0 || i >= s.len() {
        Seq::empty()
    } else {
        let a = skip_while(s, i, CharClass::Space);
        if a >= s.len() {
            Seq::empty()
        } else {
            let b = skip_while(s, a, CharClass::NonSpace);
            proof {
                lemma_skip_while_bounds(s, i, CharClass::Space);
                lemma_skip_while_bounds(s, a, CharClass::NonSpace);
            }
            seq![s.subrange(a, b)] + words_from(s, b)
        }
    }
}

/// `str::split_whitespace`.
pub open spec fn words(s: Seq<char>) -> Seq<Seq<char>> {
    words_from(s, 0)
}

/// The whitespace-separated words of `v`.
pub fn words_vec(v: &Vec<char>) -> (r: Vec<Vec<char>>)
    ensures
        seqs_view(r@) == words(v@),
{
    let mut r: Vec<Vec<char>> = Vec::new();
    let mut i: usize = 0;
    while i < v.len()
        invariant
            i <= v@.len(),
            words(v@) == seqs_view(r@) + words_from(v@, i as int),
        decreases v@.len() - i,
    {
        let ghost r0 = seqs_view(r@);
        let mut a = i;
        while a < v.len() && is_whitespace(v[a])
            invariant
                i <= a <= v@.len(),
                skip_while(v@, i as int, CharClass::Space) == skip_while(v@, a as int, CharClass::Space),
            decreases v@.len() - a,
        {
            a = a + 1;
        }
        if a >= v.len() {
            assert(words_from(v@, i as int) =~= Seq::<Seq<char>>::empty());
            i = v.len();
        } else {
            let mut b = a;
            while b < v.len() && !is_whitespace(v[b])
                invariant
                    a <= b <= v@.len(),
                    skip_while(v@, a as int, CharClass::NonSpace) == skip_while(v@, b as int, CharClass::NonSpace),
                decreases v@.len() - b,
            {
                b = b + 1;
            }
            let word = sub_vec(v, a, b);
            r.push(word);
            assert(seqs_view(r@) =~= r0.push(word@));
            assert(r0.push(word@) + words_from(v@, b as int) =~= r0 + (seq![word@] + words_from(
                v@,
                b as int,
            )));
            i = b;
        }
    }
    assert(words_from(v@, i as int) =~= Seq::<Seq<char>>::empty());
    assert(seqs_view(r@) + Seq::<Seq<char>>::empty() =~= seqs_view(r@));
    r
}

// ---------------------------------------------------------------------------
// Case
// ---------------------------------------------------------------------------

/// `char::to_ascii_lowercase`.
pub open spec fn lower(c: char) -> char {
    if 'A' <= c && c <= 'Z' {
        ((c as u32) + 32) as char
    } else {
        c
    }
}

/// `str::to_ascii_lowercase`.
pub open spec fn lower_seq(s: Seq<char>) -> Seq<char> {
    s.map_values(|c: char| lower(c))
}

/// Computes `lower`.
pub fn lower_char(c: char) -> (r: char)
    ensures
        r == lower(c),
{
    if 'A' <= c && c <= 'Z' {
        let b = (c as u8) + 32;
        assert(b as char == ((c as u32) + 32) as char);
        b as char
    } else {
        c
    }
}

/// `str::to_ascii_lowercase`.
pub fn lower_vec(v: &Vec<char>) -> (r: Vec<char>)
    ensures
        r@ == lower_seq(v@),
{
    let mut r: Vec<char> = Vec::new();
    for i in 0..v.len()
        invariant
            r@.len() == i,
            forall|j: int| 0 <= j < i ==> #[trigger] r@[j] == lower(v@[j]),
    {
        r.push(lower_char(v[i]));
    }
    assert(r@ =~= lower_seq(v@));
    r
}

} // verus!

verus! {

// ---------------------------------------------------------------------------
// Numbers
// ---------------------------------------------------------------------------

/// An ASCII decimal digit.
pub open spec fn is_digit(c: char) -> bool {
    '0' <= c && c <= '9'
}

/// The value of an ASCII decimal digit.
pub open spec fn digit_val(c: char) -> nat {
    ((c as u32) - ('0' as u32)) as nat
}

/// The value of a string of decimal digits.
pub open spec fn digits_value(s: Seq<char>) -> nat
    decreases s.len(),
{
    if s.len() == 0 {
        0
    } else {
        digits_value(s.drop_last()) * 10 + digit_val(s.last())
    }
}

/// All characters of `s` are decimal digits.
pub open spec fn all_digits(s: Seq<char>) -> bool {
    forall|i: int| 0 <= i < s.len() ==> is_digit(#[trigger] s[i])
}

/// `str::parse::<u16>`: an optional `+`, then one or more decimal digits
/// whose value fits in 16 bits.
pub open spec fn parse_u16(s: Seq<char>) -> Option<u16> {
    let d = if s.len() > 0 && s[0] == '+' {
        s.drop_first()
    } else {
        s
    };
    if d.len() > 0 && all_digits(d) && digits_value(d) <= 65535 {
        Some(digits_value(d) as u16)
    } else {
        None
    }
}

proof fn lemma_digits_value_prefix(s: Seq<char>, k: int)
    requires
        0 <= k <= s.len(),
        all_digits(s),
    ensures
        digits_value(s.take(k)) <= digits_value(s),
    decreases s.len() - k,
{
    if k < s.len() {
        lemma_digits_value_prefix(s, k + 1);
        assert(s.take(k + 1).drop_last() =~= s.take(k));
    } else {
        assert(s.take(k) =~= s);
    }
}

/// Computes `parse_u16`.
pub fn parse_u16_vec(v: &Vec<char>) -> (r: Option<u16>)
    ensures
        r == parse_u16(v@),
{
    let start: usize = if v.len() > 0 && v[0] == '+' {
        1
    } else {
        0
    };
    let ghost d = v@.subrange(start as int, v@.len() as int);
    assert(d =~= (if v@.len() > 0 && v@[0] == '+' {
        v@.drop_first()
    } else {
        v@
    }));
    if start >= v.len() {
        return None;
    }
    let mut acc: u32 = 0;
    let mut i = start;
    while i < v.len()
        invariant
            start <= i <= v@.len(),
            d == v@.subrange(start as int, v@.len() as int),
            d == (if v@.len() > 0 && v@[0] == '+' {
                v@.drop_first()
            } else {
                v@
            }),
            all_digits(d.take(i - start)),
            acc as nat == digits_value(d.take(i - start)),
            acc <= 65535,
        decreases v@.len() - i,
    {
        let c = v[i];
        if !('0' <= c && c <= '9') {
            assert(!is_digit(d[i - start]));
            assert(!all_digits(d));
            return None;
        }
        let dig = (c as u32) - ('0' as u32);
        assert(d.take(i + 1 - start).drop_last() =~= d.take(i - start));
        assert(all_digits(d.take(i + 1 - start)));
        assert(d.take(i + 1 - start).last() == c);
        assert(digit_val(c) == dig);
        assert(digits_value(d.take(i + 1 - start)) == acc * 10 + dig);
        if acc * 10 + dig > 65535 {
            proof {
                if all_digits(d) {
                    lemma_digits_value_prefix(d, i + 1 - start);
                }
            }
            return None;
        }
        acc = acc * 10 + dig;
        i = i + 1;
    }
    assert(d.take(i - start) =~= d);
    Some(acc as u16)
}

/// The character of the decimal digit `n`.
pub open spec fn digit_char(n: nat) -> char {
    (('0' as u32) + n) as char
}

/// The decimal notation of `n` (`u64::to_string`).
pub open spec fn dec(n: nat) -> Seq<char>
    decreases n,
{
    if n < 10 {
        seq![digit_char(n)]
    } else {
        dec(n / 10).push(digit_char(n % 10))
    }
}

/// The character of a decimal digit.
fn digit_to_char(n: u64) -> (c: char)
    requires
        n < 10,
    ensures
        c == digit_char(n as nat),
{
    let b = (n as u8) + 48;
    assert(b as char == (('0' as u32) + n as nat) as char);
    b as char
}

/// The decimal notation of `n`.
pub fn dec_chars(n: u64) -> (r: Vec<char>)
    ensures
        r@ == dec(n as nat),
{
    let mut m = n;
    let mut rev: Vec<char> = Vec::new();
    while m >= 10
        invariant
            dec(n as nat) == dec(m as nat) + rev@.reverse(),
        decreases m,
    {
        let c = digit_to_char(m % 10);
        let ghost old_rev = rev@;
        rev.push(c);
        assert(rev@.reverse() =~= seq![c] + old_rev.reverse());
        assert(dec(m as nat) == dec((m / 10) as nat).push(c));
        assert(dec((m / 10) as nat).push(c) + old_rev.reverse() =~= dec((m / 10) as nat) + (seq![c]
            + old_rev.reverse()));
        m = m / 10;
    }
    let mut r: Vec<char> = Vec::new();
    r.push(digit_to_char(m));
    let mut k = rev.len();
    while k > 0
        invariant
            k <= rev@.len(),
            r@ == seq![digit_char(m as nat)] + rev@.subrange(k as int, rev@.len() as int).reverse(),
        decreases k,
    {
        k = k - 1;
        let ghost old_r = r@;
        r.push(rev[k]);
        assert(rev@.subrange(k as int, rev@.len() as int).reverse() =~= rev@.subrange(
            k + 1,
            rev@.len() as int,
        ).reverse().push(rev@[k as int]));
    }
    assert(rev@.subrange(0, rev@.len() as int) =~= rev@);
    assert(dec(m as nat) == seq![digit_char(m as nat)]);
    r
}

/// Appends the decimal notation of `n` to `s`.
pub fn push_dec(s: &mut String, n: u64)
    ensures
        final(s)@ == old(s)@ + dec(n as nat),
{
    let d = dec_chars(n);
    push_chars(s, &d);
}

/// The decimal notation of a signed number (`i32::to_string`).
pub open spec fn dec_signed(x: int) -> Seq<char> {
    if x < 0 {
        seq!['-'] + dec((-x) as nat)
    } else {
        dec(x as nat)
    }
}

/// Appends the decimal notation of `x` to `s`.
pub fn push_dec_i32(s: &mut String, x: i32)
    ensures
        final(s)@ == old(s)@ + dec_signed(x as int),
{
    if x < 0 {
        push_char(s, '-');
        let m: u64 = if x == i32::MIN {
            2147483648u64
        } else {
            (-x) as u64
        };
        let ghost s1 = s@;
        push_dec(s, m);
        assert(s@ =~= old(s)@ + dec_signed(x as int));
    } else {
        push_dec(s, x as u64);
    }
}

// ---------------------------------------------------------------------------
// Home expansion
// ---------------------------------------------------------------------------

/// Every `~` of `s` replaced by `home` (`str::replace("~", home)`).
pub open spec fn replace_tilde(s: Seq<char>, home: Seq<char>) -> Seq<char>
    decreases s.len(),
{
    if s.len() == 0 {
        Seq::empty()
    } else {
        replace_tilde(s.drop_last(), home) + (if s.last() == '~' {
            home
        } else {
            seq![s.last()]
        })
    }
}

/// Every `~` of `v` replaced by `home`.
pub fn replace_tilde_vec(v: &Vec<char>, home: &str) -> (r: String)
    ensures
        r@ == replace_tilde(v@, home@),
{
    let mut r = String::new();
    let mut i: usize = 0;
    while i < v.len()
        invariant
            i <= v@.len(),
            r@ == replace_tilde(v@.take(i as int), home@),
        decreases v@.len() - i,
    {
        assert(v@.take(i + 1).drop_last() =~= v@.take(i as int));
        if v[i] == '~' {
            push_str(&mut r, home);
        } else {
            push_char(&mut r, v[i]);
            assert(r@ =~= replace_tilde(v@.take(i as int), home@) + seq![v@[i as int]]);
        }
        i = i + 1;
    }
    assert(v@.take(v@.len() as int) =~= v@);
    r
}

} // verus!

verus! {

/// The texts `ws` joined by `sep`.
pub open spec fn join_with(ws: Seq<Seq<char>>, sep: Seq<char>) -> Seq<char>
    decreases ws.len(),
{
    if ws.len() == 0 {
        Seq::empty()
    } else if ws.len() == 1 {
        ws[0]
    } else {
        join_with(ws.drop_last(), sep) + sep + ws.last()
    }
}

/// The texts of `v` joined by `sep` (`[String]::join`).
pub fn join_strings(v: &Vec<String>, sep: &str) -> (r: String)
    ensures
        r@ == join_with(v@.map_values(|s: String| s@), sep@),
{
    let ghost ws = v@.map_values(|s: String| s@);
    let mut r = String::new();
    let mut i: usize = 0;
    while i < v.len()
        invariant
            i <= v@.len(),
            ws == v@.map_values(|s: String| s@),
            r@ == join_with(ws.take(i as int), sep@),
        decreases v@.len() - i,
    {
        assert(ws.take(i + 1).drop_last() =~= ws.take(i as int));
        assert(ws.take(i + 1).last() == v@[i as int]@);
        if i > 0 {
            push_str(&mut r, sep);
        } else {
            assert(r@ =~= Seq::<char>::empty());
        }
        push_str(&mut r, v[i].as_str());
        i = i + 1;
    }
    assert(ws.take(v@.len() as int) =~= ws);
    r
}

} // verus!

verus! {

// ---------------------------------------------------------------------------
// Facts about the text functions on texts of a known shape
// ---------------------------------------------------------------------------

/// `find_from` stops at the first `c` from `i` on.
pub proof fn lemma_find_from_at(s: Seq<char>, c: char, i: int, j: int)
    requires
        0 <= i <= j <= s.len(),
        j < s.len() ==> s[j] == c,
        forall|k: int| i <= k < j ==> s[k] != c,
    ensures
        find_from(s, c, i) == j,
    decreases j - i,
{
    if i < j {
        lemma_find_from_at(s, c, i + 1, j);
    }
}

/// `skip_while` stops at the first character out of the class.
pub(crate) proof fn lemma_skip_while_at(s: Seq<char>, i: int, p: CharClass, j: int)
    requires
        0 <= i <= j <= s.len(),
        j < s.len() ==> !in_class(s[j], p),
        forall|k: int| i <= k < j ==> in_class(s[k], p),
    ensures
        skip_while(s, i, p) == j,
    decreases j - i,
{
    if i < j {
        lemma_skip_while_at(s, i + 1, p, j);
    }
}

/// `back_while` stops after the last character out of the class.
pub(crate) proof fn lemma_back_while_at(s: Seq<char>, j: int, lo: int, p: CharClass, b: int)
    requires
        0 <= lo <= b <= j <= s.len(),
        b > lo ==> !in_class(s[b - 1], p),
        forall|k: int| b <= k < j ==> in_class(s[k], p),
    ensures
        back_while(s, j, lo, p) == b,
    decreases j - b,
{
    if b < j {
        lemma_back_while_at(s, j - 1, lo, p, b);
    }
}

/// Trimming a text keeps exactly the part between the characters of the
/// class at its ends.
pub proof fn lemma_trim_by_at(s: Seq<char>, p: CharClass, a: int, b: int)
    requires
        0 <= a < b <= s.len(),
        !in_class(s[a], p),
        !in_class(s[b - 1], p),
        forall|k: int| 0 <= k < a ==> in_class(s[k], p),
        forall|k: int| b <= k < s.len() ==> in_class(s[k], p),
    ensures
        trim_by(s, p) == s.subrange(a, b),
{
    lemma_skip_while_at(s, 0, p, a);
    lemma_back_while_at(s, s.len() as int, a, p, b);
}

/// A text of the class alone trims to nothing.
pub proof fn lemma_trim_by_all(s: Seq<char>, p: CharClass)
    requires
        forall|k: int| 0 <= k < s.len() ==> in_class(s[k], p),
    ensures
        trim_by(s, p).len() == 0,
{
    lemma_skip_while_at(s, 0, p, s.len() as int);
}

/// `find_from` on a text is `find_from` on the part from `i` on, shifted.
proof fn lemma_find_from_suffix(s: Seq<char>, c: char, i: int)
    requires
        0 <= i <= s.len(),
    ensures
        find_from(s, c, i) == i + find_from(s.subrange(i, s.len() as int), c, 0),
    decreases s.len() - i,
{
    let t = s.subrange(i, s.len() as int);
    if i < s.len() && s[i] != c {
        lemma_find_from_suffix(s, c, i + 1);
        lemma_find_from_suffix(t, c, 1);
        assert(t.subrange(1, t.len() as int) =~= s.subrange(i + 1, s.len() as int));
    }
}

/// The lines of a text from `i` on are the lines of its part from `i` on.
proof fn lemma_lines_from_suffix(s: Seq<char>, i: int)
    requires
        0 <= i <= s.len(),
    ensures
        lines_from(s, i) == lines(s.subrange(i, s.len() as int)),
    decreases s.len() - i,
{
    let t = s.subrange(i, s.len() as int);
    if i < s.len() {
        lemma_find_from_suffix(s, '\n', i);
        lemma_find_from_bounds(s, '\n', i);
        let e = find_from(s, '\n', i);
        let e2 = find_from(t, '\n', 0);
        assert(e == i + e2);
        if e < s.len() {
            assert(s.subrange(i, e) =~= t.subrange(0, e2));
            lemma_lines_from_suffix(s, e + 1);
            lemma_lines_from_suffix(t, e2 + 1);
            assert(s.subrange(e + 1, s.len() as int) =~= t.subrange(e2 + 1, t.len() as int));
        } else {
            assert(s.subrange(i, s.len() as int) =~= t.subrange(0, t.len() as int));
        }
    }
}

/// A line without a newline or a final carriage return, a newline, then
/// more text: the line, then the lines of the rest.
pub proof fn lemma_lines_cons(l: Seq<char>, rest: Seq<char>)
    requires
        !l.contains('\n'),
        l.len() > 0 ==> l.last() != '\r',
    ensures
        lines(l + seq!['\n'] + rest) == seq![l] + lines(rest),
{
    let s = l + seq!['\n'] + rest;
    assert forall|k: int| 0 <= k < l.len() implies s[k] != '\n' by {
        assert(s[k] == l[k]);
        if s[k] == '\n' {
            assert(l.contains('\n'));
        }
    }
    lemma_find_from_at(s, '\n', 0, l.len() as int);
    assert(s.subrange(0, l.len() as int) =~= l);
    lemma_lines_from_suffix(s, l.len() + 1int);
    assert(s.subrange(l.len() + 1int, s.len() as int) =~= rest);
}

/// Joining a first text to others puts it and the separator in front.
pub proof fn lemma_join_with_cons(l: Seq<char>, ls: Seq<Seq<char>>, sep: Seq<char>)
    requires
        ls.len() > 0,
    ensures
        join_with(seq![l] + ls, sep) == l + sep + join_with(ls, sep),
    decreases ls.len(),
{
    let all = seq![l] + ls;
    assert(all.drop_last() =~= seq![l] + ls.drop_last());
    assert(all.last() == ls.last());
    assert(all.len() >= 2);
    assert(join_with(all, sep) == join_with(all.drop_last(), sep) + sep + all.last());
    if ls.len() == 1 {
        assert(seq![l] + ls.drop_last() =~= seq![l]);
        assert(join_with(seq![l], sep) == l);
        assert(join_with(ls, sep) == ls[0]);
        assert(ls.last() == ls[0]);
    } else {
        lemma_join_with_cons(l, ls.drop_last(), sep);
        assert(join_with(ls, sep) == join_with(ls.drop_last(), sep) + sep + ls.last());
        assert(l + sep + join_with(ls.drop_last(), sep) + sep + ls.last() =~= l + sep + (join_with(
            ls.drop_last(),
            sep,
        ) + sep + ls.last()));
    }
}

/// Lines without newlines or final carriage returns, each followed by a
/// newline, read back as those lines.
pub proof fn lemma_lines_of_joined(ls: Seq<Seq<char>>)
    requires
        forall|i: int|
            0 <= i < ls.len() ==> !(#[trigger] ls[i]).contains('\n') && (ls[i].len() > 0 ==> ls[i].last()
                != '\r'),
    ensures
        lines(join_with(ls.push(Seq::empty()), "\n"@)) == ls,
    decreases ls.len(),
{
    reveal_strlit("\n");
    if ls.len() == 0 {
        assert(ls.push(Seq::empty()) =~= seq![Seq::<char>::empty()]);
        assert(join_with(seq![Seq::<char>::empty()], "\n"@) == Seq::<char>::empty());
        assert(lines(Seq::<char>::empty()) =~= Seq::<Seq<char>>::empty());
        assert(ls =~= Seq::<Seq<char>>::empty());
    } else {
        let rest = ls.drop_first();
        assert forall|i: int|
            0 <= i < rest.len() implies !(#[trigger] rest[i]).contains('\n') && (rest[i].len() > 0
            ==> rest[i].last() != '\r') by {
            assert(rest[i] == ls[i + 1]);
        }
        lemma_lines_of_joined(rest);
        assert(ls.push(Seq::empty()) =~= seq![ls[0]] + rest.push(Seq::empty()));
        lemma_join_with_cons(ls[0], rest.push(Seq::empty()), "\n"@);
        let j = join_with(rest.push(Seq::empty()), "\n"@);
        assert("\n"@ =~= seq!['\n']);
        assert(join_with(ls.push(Seq::empty()), "\n"@) == ls[0] + seq!['\n'] + j);
        lemma_lines_cons(ls[0], j);
        assert(seq![ls[0]] + rest =~= ls);
    }
}

} // verus!

verus! {

/// The decimal notation of `n` is a non-empty run of digits worth `n`.
pub proof fn lemma_dec_digits(n: nat)
    ensures
        dec(n).len() > 0,
        all_digits(dec(n)),
        digits_value(dec(n)) == n,
    decreases n,
{
    if n < 10 {
        assert(digit_val(digit_char(n)) == n);
        assert(dec(n).drop_last() =~= Seq::<char>::empty());
        assert(digits_value(Seq::<char>::empty()) == 0);
        assert(dec(n).last() == digit_char(n));
        assert(digits_value(dec(n)) == digits_value(dec(n).drop_last()) * 10 + digit_val(dec(n).last()));
    } else {
        lemma_dec_digits(n / 10);
        let s = dec(n / 10);
        let c = digit_char(n % 10);
        assert(dec(n) == s.push(c));
        assert(s.push(c).drop_last() =~= s);
        assert(digit_val(c) == n % 10);
        assert(n == (n / 10) * 10 + n % 10);
        assert(digits_value(s.push(c)) == digits_value(s) * 10 + digit_val(c));
        assert forall|i: int| 0 <= i < s.push(c).len() implies is_digit(#[trigger] s.push(c)[i]) by {
            if i < s.len() {
                assert(s.push(c)[i] == s[i]);
            }
        }
    }
}

/// Reading back the decimal notation of a 16-bit number gives the number.
pub proof fn lemma_parse_dec_u16(p: u16)
    ensures
        parse_u16(dec(p as nat)) == Some(p),
        dec(p as nat).len() > 0,
        forall|i: int| 0 <= i < dec(p as nat).len() ==> is_digit(#[trigger] dec(p as nat)[i]),
{
    lemma_dec_digits(p as nat);
    assert(is_digit(dec(p as nat)[0]));
}

} // verus!

verus! {

/// The lines of a text ending with a newline, then more text: the lines of
/// the first, then those of the second.
pub proof fn lemma_lines_append(x: Seq<char>, y: Seq<char>)
    requires
        x.len() == 0 || x.last() == '\n',
    ensures
        lines(x + y) == lines(x) + lines(y),
    decreases x.len(),
{
    if x.len() == 0 {
        assert(x + y =~= y);
        assert(lines(x) =~= Seq::<Seq<char>>::empty());
        assert(lines(x) + lines(y) =~= lines(y));
    } else {
        lemma_find_from_bounds(x, '\n', 0);
        let e = find_from(x, '\n', 0);
        if e == x.len() {
            assert(x[x.len() - 1] != '\n');
        }
        let s = x + y;
        assert forall|k: int| 0 <= k < e implies s[k] != '\n' by {
            assert(s[k] == x[k]);
        }
        assert(s[e] == x[e]);
        lemma_find_from_at(s, '\n', 0, e);
        lemma_lines_from_suffix(x, e + 1);
        lemma_lines_from_suffix(s, e + 1);
        let x2 = x.subrange(e + 1, x.len() as int);
        assert(s.subrange(e + 1, s.len() as int) =~= x2 + y);
        assert(s.subrange(0, e) =~= x.subrange(0, e));
        if x2.len() > 0 {
            assert(x2.last() == x.last());
        }
        lemma_lines_append(x2, y);
        assert(lines(x) == seq![strip_cr(x.subrange(0, e))] + lines(x2));
        assert(lines(s) == seq![strip_cr(x.subrange(0, e))] + lines(x2 + y));
        assert(seq![strip_cr(x.subrange(0, e))] + (lines(x2) + lines(y)) =~= seq![strip_cr(x.subrange(0, e))]
            + lines(x2) + lines(y));
    }
}

/// `ls` with a carriage return taken off the end of its last line.
pub open spec fn strip_last_cr(ls: Seq<Seq<char>>) -> Seq<Seq<char>> {
    if ls.len() == 0 {
        ls
    } else {
        ls.drop_last().push(strip_cr(ls.last()))
    }
}

/// A newline after a non-empty text that does not end with one changes its
/// lines only by a carriage return taken off the end of the last.
pub proof fn lemma_lines_newline_end(x: Seq<char>)
    requires
        x.len() > 0,
        x.last() != '\n',
    ensures
        lines(x).len() > 0,
        lines(x + seq!['\n']) == strip_last_cr(lines(x)),
    decreases x.len(),
{
    lemma_find_from_bounds(x, '\n', 0);
    let e = find_from(x, '\n', 0);
    let s = x + seq!['\n'];
    assert forall|k: int| 0 <= k < e implies s[k] != '\n' by {
        assert(s[k] == x[k]);
    }
    if e == x.len() {
        assert(s[e] == '\n');
        lemma_find_from_at(s, '\n', 0, e);
        assert(lines(x) == seq![x.subrange(0, x.len() as int)]);
        assert(x.subrange(0, x.len() as int) =~= x);
        assert(s.subrange(0, e) =~= x);
        assert(lines_from(s, e + 1) =~= Seq::<Seq<char>>::empty());
        assert(lines(s) =~= seq![strip_cr(x)]);
        assert(strip_last_cr(seq![x]) =~= seq![strip_cr(x)]);
    } else {
        assert(e < x.len() - 1);
        assert(s[e] == x[e]);
        lemma_find_from_at(s, '\n', 0, e);
        lemma_lines_from_suffix(x, e + 1);
        lemma_lines_from_suffix(s, e + 1);
        let x2 = x.subrange(e + 1, x.len() as int);
        assert(x2.last() == x.last());
        assert(s.subrange(e + 1, s.len() as int) =~= x2 + seq!['\n']);
        assert(s.subrange(0, e) =~= x.subrange(0, e));
        lemma_lines_newline_end(x2);
        let a = strip_cr(x.subrange(0, e));
        assert(lines(x) == seq![a] + lines(x2));
        assert(lines(s) == seq![a] + strip_last_cr(lines(x2)));
        assert(strip_last_cr(seq![a] + lines(x2)) =~= seq![a] + strip_last_cr(lines(x2)));
    }
}

/// A carriage return at the end of a line does not change its trimmed
/// text.
pub proof fn lemma_trim_strip_cr(l: Seq<char>)
    ensures
        trim(strip_cr(l)) == trim(l),
{
    if l.len() > 0 && l.last() == '\r' {
        let m = l.drop_last();
        if forall|k: int| 0 <= k < m.len() ==> is_ws(#[trigger] m[k]) {
            lemma_trim_by_all(m, CharClass::Space);
            assert forall|k: int| 0 <= k < l.len() implies in_class(#[trigger] l[k], CharClass::Space) by {
                if k < m.len() {
                    assert(l[k] == m[k]);
                }
            }
            lemma_trim_by_all(l, CharClass::Space);
            assert(trim(m) =~= trim(l));
        } else {
            let w = choose|k: int| 0 <= k < m.len() && !is_ws(m[k]);
            lemma_skip_while_bounds(m, 0, CharClass::Space);
            let a = skip_while(m, 0, CharClass::Space);
            if a >= m.len() {
                assert(in_class(m[w], CharClass::Space));
            }
            lemma_back_while_bounds(m, m.len() as int, a, CharClass::Space);
            let b = back_while(m, m.len() as int, a, CharClass::Space);
            if b == a {
                assert(in_class(m[a], CharClass::Space));
            }
            assert(trim(m) == m.subrange(a, b));
            assert forall|k: int| 0 <= k < a implies in_class(#[trigger] l[k], CharClass::Space) by {
                assert(l[k] == m[k]);
            }
            assert forall|k: int| b <= k < l.len() implies in_class(#[trigger] l[k], CharClass::Space) by {
                if k < m.len() {
                    assert(l[k] == m[k]);
                }
            }
            assert(l[a] == m[a]);
            assert(l[b - 1] == m[b - 1]);
            lemma_trim_by_at(l, CharClass::Space, a, b);
            assert(l.subrange(a, b) =~= m.subrange(a, b));
        }
    }
}

} // verus!

verus! {

/// The lines of a text made of lines without newlines joined by newlines:
/// every line but the last without a final carriage return, then the last
/// unless it is empty.
pub open spec fn joined_lines(ls: Seq<Seq<char>>) -> Seq<Seq<char>> {
    ls.drop_last().map_values(|l: Seq<char>| strip_cr(l)) + if ls.last().len() > 0 {
        seq![ls.last()]
    } else {
        Seq::empty()
    }
}

/// A line without a newline, a newline, then more text: the line without a
/// final carriage return, then the lines of the rest.
pub proof fn lemma_lines_cons_cr(l: Seq<char>, rest: Seq<char>)
    requires
        !l.contains('\n'),
    ensures
        lines(l + seq!['\n'] + rest) == seq![strip_cr(l)] + lines(rest),
{
    let s = l + seq!['\n'] + rest;
    assert forall|k: int| 0 <= k < l.len() implies s[k] != '\n' by {
        assert(s[k] == l[k]);
        if s[k] == '\n' {
            assert(l.contains('\n'));
        }
    }
    lemma_find_from_at(s, '\n', 0, l.len() as int);
    assert(s.subrange(0, l.len() as int) =~= l);
    lemma_lines_from_suffix(s, l.len() + 1int);
    assert(s.subrange(l.len() + 1int, s.len() as int) =~= rest);
}

/// The lines of lines joined by newlines.
pub proof fn lemma_lines_of_join(ls: Seq<Seq<char>>)
    requires
        ls.len() > 0,
        forall|i: int| 0 <= i < ls.len() ==> !(#[trigger] ls[i]).contains('\n'),
    ensures
        lines(join_with(ls, "\n"@)) == joined_lines(ls),
    decreases ls.len(),
{
    reveal_strlit("\n");
    if ls.len() == 1 {
        let l = ls[0];
        assert(join_with(ls, "\n"@) == l);
        assert(ls.drop_last().map_values(|l: Seq<char>| strip_cr(l)) =~= Seq::<Seq<char>>::empty());
        assert(ls.last() == l);
        if l.len() > 0 {
            assert forall|k: int| 0 <= k < l.len() implies l[k] != '\n' by {
                if l[k] == '\n' {
                    assert(l.contains('\n'));
                }
            }
            lemma_find_from_at(l, '\n', 0, l.len() as int);
            assert(l.subrange(0, l.len() as int) =~= l);
            assert(lines(l) =~= seq![l]);
        } else {
            assert(lines(l) =~= Seq::<Seq<char>>::empty());
        }
        assert(joined_lines(ls) =~= lines(l));
    } else {
        let rest = ls.drop_first();
        assert forall|i: int| 0 <= i < rest.len() implies !(#[trigger] rest[i]).contains('\n') by {
            assert(rest[i] == ls[i + 1]);
        }
        lemma_lines_of_join(rest);
        assert(ls =~= seq![ls[0]] + rest);
        lemma_join_with_cons(ls[0], rest, "\n"@);
        assert("\n"@ =~= seq!['\n']);
        lemma_lines_cons_cr(ls[0], join_with(rest, "\n"@));
        assert(ls.drop_last() =~= seq![ls[0]] + rest.drop_last());
        assert(ls.last() == rest.last());
        assert(ls.drop_last().map_values(|l: Seq<char>| strip_cr(l)) =~= seq![strip_cr(ls[0])]
            + rest.drop_last().map_values(|l: Seq<char>| strip_cr(l)));
        assert(joined_lines(ls) =~= seq![strip_cr(ls[0])] + joined_lines(rest));
    }
}

} // verus!

verus! {

/// No line of a text holds a newline.
pub proof fn lemma_lines_no_newline(s: Seq<char>, i: int)
    requires
        0 <= i <= s.len(),
    ensures
        forall|k: int| 0 <= k < lines_from(s, i).len() ==> !(#[trigger] lines_from(s, i)[k]).contains('\n'),
    decreases s.len() - i,
{
    if i < s.len() {
        lemma_find_from_bounds(s, '\n', i);
        let e = find_from(s, '\n', i);
        if e >= s.len() {
            let l = s.subrange(i, s.len() as int);
            assert(!l.contains('\n')) by {
                if l.contains('\n') {
                    let q = choose|q: int| 0 <= q < l.len() && l[q] == '\n';
                    assert(s[i + q] == l[q]);
                }
            }
            assert(lines_from(s, i) == seq![l]);
        } else {
            lemma_lines_no_newline(s, e + 1);
            let l = strip_cr(s.subrange(i, e));
            assert(!l.contains('\n')) by {
                if l.contains('\n') {
                    let q = choose|q: int| 0 <= q < l.len() && l[q] == '\n';
                    assert(s.subrange(i, e)[q] == l[q]);
                    assert(s[i + q] == l[q]);
                }
            }
            let r = lines_from(s, e + 1);
            assert(lines_from(s, i) == seq![l] + r);
            assert forall|k: int| 0 <= k < lines_from(s, i).len() implies !(
            #[trigger] lines_from(s, i)[k]).contains('\n') by {
                if k > 0 {
                    assert(lines_from(s, i)[k] == r[k - 1]);
                }
            }
        }
    }
}

/// Whitespace after a text does not change what trimming it gives.
pub proof fn lemma_trim_ws_suffix(w: Seq<char>, post: Seq<char>)
    requires
        forall|k: int| 0 <= k < post.len() ==> is_ws(#[trigger] post[k]),
    ensures
        trim(w + post) == trim(w),
{
    let s = w + post;
    let a = skip_while(w, 0, CharClass::Space);
    lemma_skip_while_bounds(w, 0, CharClass::Space);
    if a < w.len() {
        let b = back_while(w, w.len() as int, a, CharClass::Space);
        lemma_back_while_bounds(w, w.len() as int, a, CharClass::Space);
        assert(b > a) by {
            if b <= a {
                assert(in_class(w[a], CharClass::Space));
            }
        }
        assert(!in_class(w[b - 1], CharClass::Space));
        lemma_trim_by_at(w, CharClass::Space, a, b);
        assert forall|k: int| 0 <= k < a implies in_class(s[k], CharClass::Space) by {
            assert(s[k] == w[k]);
        }
        assert forall|k: int| b <= k < s.len() implies in_class(s[k], CharClass::Space) by {
            if k < w.len() {
                assert(s[k] == w[k]);
            } else {
                assert(s[k] == post[k - w.len()]);
            }
        }
        assert(s[a] == w[a]);
        assert(s[b - 1] == w[b - 1]);
        lemma_trim_by_at(s, CharClass::Space, a, b);
        assert(s.subrange(a, b) =~= w.subrange(a, b));
    } else {
        assert forall|k: int| 0 <= k < w.len() implies in_class(w[k], CharClass::Space) by {}
        lemma_trim_by_all(w, CharClass::Space);
        assert forall|k: int| 0 <= k < s.len() implies in_class(s[k], CharClass::Space) by {
            if k < w.len() {
                assert(s[k] == w[k]);
            } else {
                assert(s[k] == post[k - w.len()]);
            }
        }
        lemma_trim_by_all(s, CharClass::Space);
        assert(trim(s) =~= trim(w));
    }
}

} // verus!
