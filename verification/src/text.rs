//! Character-level text helpers shared by the label, help and markup code:
//! Unicode whitespace, trimming, ASCII case folding and substring search,
//! each stated over the characters of the text.

use vstd::prelude::*;

verus! {

/// `char::is_whitespace`: the Unicode `White_Space` characters.
pub open spec fn is_space(c: char) -> bool {
    ||| c == ' '
    ||| ('\t' <= c && c <= '\r')
    ||| c == '\u{85}'
    ||| c == '\u{a0}'
    ||| c == '\u{1680}'
    ||| ('\u{2000}' <= c && c <= '\u{200a}')
    ||| c == '\u{2028}'
    ||| c == '\u{2029}'
    ||| c == '\u{202f}'
    ||| c == '\u{205f}'
    ||| c == '\u{3000}'
}

pub fn is_space_exec(c: char) -> (r: bool)
    ensures
        r == is_space(c),
{
    c == ' ' || ('\t' <= c && c <= '\r') || c == '\u{85}' || c == '\u{a0}' || c == '\u{1680}'
        || ('\u{2000}' <= c && c <= '\u{200a}') || c == '\u{2028}' || c == '\u{2029}' || c
        == '\u{202f}' || c == '\u{205f}' || c == '\u{3000}'
}

/// How many whitespace characters open `s`.
pub open spec fn lead_spaces(s: Seq<char>) -> nat
    decreases s.len(),
{
    if s.len() > 0 && is_space(s[0]) {
        1 + lead_spaces(s.drop_first())
    } else {
        0
    }
}

/// How many whitespace characters close `s`.
pub open spec fn trail_spaces(s: Seq<char>) -> nat
    decreases s.len(),
{
    if s.len() > 0 && is_space(s.last()) {
        1 + trail_spaces(s.drop_last())
    } else {
        0
    }
}

/// `str::trim`: `s` without its leading and trailing whitespace.
pub open spec fn trim(s: Seq<char>) -> Seq<char> {
    let t = s.skip(lead_spaces(s) as int);
    t.take(t.len() - trail_spaces(t))
}

pub open spec fn ascii_lower(c: char) -> char {
    if 'A' <= c && c <= 'Z' {
        ((c as u32) + 32) as char
    } else {
        c
    }
}

pub open spec fn ascii_upper(c: char) -> char {
    if 'a' <= c && c <= 'z' {
        ((c as u32) - 32) as char
    } else {
        c
    }
}

/// `str::to_ascii_lowercase`.
pub open spec fn lower(s: Seq<char>) -> Seq<char> {
    s.map_values(|c: char| ascii_lower(c))
}

/// `p` occurs in `s` at `i`.
pub open spec fn occurs_at(s: Seq<char>, p: Seq<char>, i: int) -> bool {
    0 <= i && i + p.len() <= s.len() && s.subrange(i, i + p.len()) == p
}

/// `str::contains`.
pub open spec fn contains(s: Seq<char>, p: Seq<char>) -> bool {
    exists|i: int| occurs_at(s, p, i)
}

/// `str::starts_with`.
pub open spec fn starts_with(s: Seq<char>, p: Seq<char>) -> bool {
    occurs_at(s, p, 0)
}

/// `str::ends_with`.
pub open spec fn ends_with(s: Seq<char>, p: Seq<char>) -> bool {
    occurs_at(s, p, s.len() - p.len())
}

/// The first index at or after `from` where `c` stands, if any.
pub open spec fn find_char(s: Seq<char>, c: char, from: int) -> Option<int>
    decreases s.len() - from,
{
    if from < 0 || from >= s.len() {
        None
    } else if s[from] == c {
        Some(from)
    } else {
        find_char(s, c, from + 1)
    }
}

pub fn ascii_lower_exec(c: char) -> (r: char)
    ensures
        r == ascii_lower(c),
{
    if 'A' <= c && c <= 'Z' {
        let u: u32 = (c as u32) + 32;
        char_of_ascii(u)
    } else {
        c
    }
}

pub fn ascii_upper_exec(c: char) -> (r: char)
    ensures
        r == ascii_upper(c),
{
    if 'a' <= c && c <= 'z' {
        let u: u32 = (c as u32) - 32;
        char_of_ascii(u)
    } else {
        c
    }
}

/// The character of an ASCII code.
fn char_of_ascii(u: u32) -> (c: char)
    requires
        u < 128,
    ensures
        c == u as char,
        c as u32 == u,
{
    let b: u8 = u as u8;
    b as char
}

/// The characters of a string, in order.
pub fn chars_of(s: &str) -> (v: Vec<char>)
    ensures
        v@ == s@,
{
    let n = s.unicode_len();
    let mut v: Vec<char> = Vec::new();
    let mut i: usize = 0;
    while i < n
        invariant
            n == s@.len(),
            i <= n,
            v@ == s@.take(i as int),
        decreases n - i,
    {
        v.push(s.get_char(i));
        i = i + 1;
        assert(v@ =~= s@.take(i as int));
    }
    assert(s@.take(n as int) =~= s@);
    v
}

/// A string of the given characters: std's `FromIterator<char>` for
/// `String` (`Iterator::collect`), which the contract takes to append the
/// characters in order and nothing else, as std documents.
#[verifier::external_body]
pub(crate) fn string_of(v: &Vec<char>) -> (s: String)
    ensures
        s@ == v@,
{
    v.iter().collect()
}

/// The characters `v[from..to]`, as a new vector.
pub fn slice_chars(v: &Vec<char>, from: usize, to: usize) -> (r: Vec<char>)
    requires
        from <= to <= v@.len(),
    ensures
        r@ == v@.subrange(from as int, to as int),
{
    let mut r: Vec<char> = Vec::new();
    let mut i: usize = from;
    while i < to
        invariant
            from <= i <= to <= v@.len(),
            r@ == v@.subrange(from as int, i as int),
        decreases to - i,
    {
        r.push(v[i]);
        i = i + 1;
        assert(r@ =~= v@.subrange(from as int, i as int));
    }
    r
}

/// Append the characters of `src` to `dst`.
pub fn extend_chars(dst: &mut Vec<char>, src: &Vec<char>)
    ensures
        final(dst)@ == old(dst)@ + src@,
{
    let mut i: usize = 0;
    while i < src.len()
        invariant
            i <= src@.len(),
            dst@ == old(dst)@ + src@.take(i as int),
        decreases src@.len() - i,
    {
        dst.push(src[i]);
        i = i + 1;
        assert(dst@ =~= old(dst)@ + src@.take(i as int));
    }
    assert(src@.take(src@.len() as int) =~= src@);
}

/// Append the characters of `src` to `dst`.
pub fn extend_str(dst: &mut Vec<char>, src: &str)
    ensures
        final(dst)@ == old(dst)@ + src@,
{
    let v = chars_of(src);
    extend_chars(dst, &v);
}

/// The ASCII-lowercased characters.
pub fn lower_exec(v: &Vec<char>) -> (r: Vec<char>)
    ensures
        r@ == lower(v@),
{
    let mut r: Vec<char> = Vec::new();
    let mut i: usize = 0;
    while i < v.len()
        invariant
            i <= v@.len(),
            r@ == lower(v@.take(i as int)),
        decreases v@.len() - i,
    {
        r.push(ascii_lower_exec(v[i]));
        i = i + 1;
        assert(r@ =~= lower(v@.take(i as int)));
    }
    assert(v@.take(v@.len() as int) =~= v@);
    r
}

pub proof fn lemma_lead_spaces(s: Seq<char>, i: int)
    requires
        0 <= i <= s.len(),
        forall|k: int| 0 <= k < i ==> is_space(#[trigger] s[k]),
    ensures
        lead_spaces(s) == i + lead_spaces(s.skip(i)),
    decreases i,
{
    if i > 0 {
        assert(s.skip(1) =~= s.drop_first());
        assert(s.drop_first().skip(i - 1) =~= s.skip(i));
        lemma_lead_spaces(s.drop_first(), i - 1);
    } else {
        assert(s.skip(0) =~= s);
    }
}

pub proof fn lemma_trail_spaces(s: Seq<char>, j: int)
    requires
        0 <= j <= s.len(),
        forall|k: int| j <= k < s.len() ==> is_space(#[trigger] s[k]),
    ensures
        trail_spaces(s) == (s.len() - j) + trail_spaces(s.take(j)),
    decreases s.len() - j,
{
    if j < s.len() {
        assert(s.drop_last().take(j) =~= s.take(j));
        lemma_trail_spaces(s.drop_last(), j);
    } else {
        assert(s.take(j) =~= s);
    }
}

/// The bounds `[a, b)` of `trim(v)` inside `v`.
pub fn trim_bounds(v: &Vec<char>) -> (r: (usize, usize))
    ensures
        r.0 <= r.1 <= v@.len(),
        v@.subrange(r.0 as int, r.1 as int) == trim(v@),
{
    let n = v.len();
    let mut a: usize = 0;
    while a < n && is_space_exec(v[a])
        invariant
            n == v@.len(),
            a <= n,
            forall|k: int| 0 <= k < a ==> is_space(#[trigger] v@[k]),
        decreases n - a,
    {
        a = a + 1;
    }
    proof {
        lemma_lead_spaces(v@, a as int);
        if a < n {
            assert(!is_space(v@.skip(a as int)[0]));
        }
        assert(lead_spaces(v@.skip(a as int)) == 0);
    }
    let ghost t = v@.skip(a as int);
    let mut b: usize = n;
    while b > a && is_space_exec(v[b - 1])
        invariant
            n == v@.len(),
            a <= b <= n,
            forall|k: int| b <= k < n ==> is_space(#[trigger] v@[k]),
        decreases b - a,
    {
        b = b - 1;
    }
    proof {
        let j = b - a;
        assert forall|k: int| j <= k < t.len() implies is_space(#[trigger] t[k]) by {
            assert(t[k] == v@[k + a]);
        }
        lemma_trail_spaces(t, j);
        if j > 0 {
            assert(t.take(j).last() == v@[b - 1]);
        }
        assert(trail_spaces(t.take(j)) == 0);
        assert(t.take(j) =~= v@.subrange(a as int, b as int));
    }
    (a, b)
}

/// The trimmed characters of a string.
pub fn trim_exec(s: &str) -> (r: Vec<char>)
    ensures
        r@ == trim(s@),
{
    let v = chars_of(s);
    let (a, b) = trim_bounds(&v);
    slice_chars(&v, a, b)
}

/// Whether `p` occurs in `v` at `i`.
pub fn occurs_at_exec(v: &Vec<char>, p: &str, i: usize) -> (r: bool)
    ensures
        r == occurs_at(v@, p@, i as int),
{
    let m = p.unicode_len();
    let n = v.len();
    if i > n || m > n - i {
        return false;
    }
    let mut k: usize = 0;
    while k < m
        invariant
            m == p@.len(),
            n == v@.len(),
            i + m <= v@.len(),
            k <= m,
            forall|q: int| 0 <= q < k ==> v@[i + q] == p@[q],
        decreases m - k,
    {
        if v[i + k] != p.get_char(k) {
            assert(v@.subrange(i as int, i + m)[k as int] != p@[k as int]);
            return false;
        }
        k = k + 1;
    }
    assert(v@.subrange(i as int, i + m) =~= p@);
    true
}

/// Whether `p` occurs anywhere in `v`.
pub fn contains_exec(v: &Vec<char>, p: &str) -> (r: bool)
    ensures
        r == contains(v@, p@),
{
    let n = v.len();
    let mut i: usize = 0;
    while i < n
        invariant
            n == v@.len(),
            i <= n,
            forall|q: int| 0 <= q < i ==> !occurs_at(v@, p@, q),
        decreases n - i,
    {
        if occurs_at_exec(v, p, i) {
            return true;
        }
        i = i + 1;
    }
    if occurs_at_exec(v, p, n) {
        return true;
    }
    assert forall|q: int| !occurs_at(v@, p@, q) by {
        if 0 <= q && q < n {
        }
    }
    false
}

/// Whether `v` starts with `p`.
pub fn starts_with_exec(v: &Vec<char>, p: &str) -> (r: bool)
    ensures
        r == starts_with(v@, p@),
{
    occurs_at_exec(v, p, 0)
}

/// Whether `v` is exactly the characters of `p`.
pub fn equals_exec(v: &Vec<char>, p: &str) -> (r: bool)
    ensures
        r == (v@ == p@),
{
    let m = p.unicode_len();
    if m != v.len() {
        return false;
    }
    let r = occurs_at_exec(v, p, 0);
    assert(v@.subrange(0, m as int) =~= v@);
    r
}

/// How many non-whitespace characters open `s`.
pub open spec fn word_len(s: Seq<char>) -> nat
    decreases s.len(),
{
    if s.len() > 0 && !is_space(s[0]) {
        1 + word_len(s.drop_first())
    } else {
        0
    }
}

/// `str::split_whitespace`: the maximal runs of non-whitespace characters.
pub open spec fn words(s: Seq<char>) -> Seq<Seq<char>>
    decreases s.len(),
{
    let t = s.skip(lead_spaces(s) as int);
    if t.len() == 0 || lead_spaces(s) > s.len() || word_len(t) == 0 {
        seq![]
    } else {
        proof {
            lemma_word_len_bound(t);
        }
        seq![t.take(word_len(t) as int)] + words(t.skip(word_len(t) as int))
    }
}

pub proof fn lemma_word_len_bound(s: Seq<char>)
    ensures
        word_len(s) <= s.len(),
        word_len(s) < s.len() ==> is_space(s[word_len(s) as int]),
    decreases s.len(),
{
    if s.len() > 0 && !is_space(s[0]) {
        lemma_word_len_bound(s.drop_first());
    }
}

pub proof fn lemma_lead_spaces_bound(s: Seq<char>)
    ensures
        lead_spaces(s) <= s.len(),
        lead_spaces(s) < s.len() ==> !is_space(s[lead_spaces(s) as int]),
    decreases s.len(),
{
    if s.len() > 0 && is_space(s[0]) {
        lemma_lead_spaces_bound(s.drop_first());
    }
}

pub proof fn lemma_word_len(s: Seq<char>, i: int)
    requires
        0 <= i <= s.len(),
        forall|k: int| 0 <= k < i ==> !is_space(#[trigger] s[k]),
    ensures
        word_len(s) == i + word_len(s.skip(i)),
    decreases i,
{
    if i > 0 {
        assert(s.skip(1) =~= s.drop_first());
        assert(s.drop_first().skip(i - 1) =~= s.skip(i));
        lemma_word_len(s.drop_first(), i - 1);
    } else {
        assert(s.skip(0) =~= s);
    }
}

/// `find_char` over a vector, from `from` on.
pub fn find_char_exec(v: &Vec<char>, c: char, from: usize) -> (r: Option<usize>)
    ensures
        match r {
            Some(i) => find_char(v@, c, from as int) == Some(i as int),
            None => find_char(v@, c, from as int) is None,
        },
{
    let n = v.len();
    let mut i = from;
    while i < n
        invariant
            n == v@.len(),
            from <= i,
            find_char(v@, c, i as int) == find_char(v@, c, from as int),
        decreases n - i,
    {
        if v[i] == c {
            return Some(i);
        }
        i = i + 1;
    }
    None
}

pub proof fn lemma_find_char(s: Seq<char>, c: char, from: int)
    requires
        0 <= from,
    ensures
        find_char(s, c, from) matches Some(i) ==> from <= i < s.len() && s[i] == c
            && forall|k: int| from <= k < i ==> s[k] != c,
        find_char(s, c, from) is None ==> forall|k: int| from <= k < s.len() ==> s[k] != c,
    decreases s.len() - from,
{
    if from < s.len() && s[from] != c {
        lemma_find_char(s, c, from + 1);
    }
}

/// The decimal digits of `n`.
pub open spec fn decimal(n: nat) -> Seq<char>
    decreases n,
{
    if n < 10 {
        seq![digit(n)]
    } else {
        decimal(n / 10).push(digit(n % 10))
    }
}

pub open spec fn digit(d: nat) -> char {
    ((48 + d) as u32) as char
}

/// Append the decimal digits of `n` to `dst`.
pub fn push_decimal(dst: &mut Vec<char>, n: u64)
    ensures
        final(dst)@ == old(dst)@ + decimal(n as nat),
    decreases n,
{
    if n >= 10 {
        push_decimal(dst, n / 10);
    }
    let d: u32 = (n % 10) as u32;
    dst.push(char_of_ascii(48 + d));
    assert(final(dst)@ =~= old(dst)@ + decimal(n as nat));
}

/// Whether two vectors hold the same characters.
pub fn equals_vec(a: &Vec<char>, b: &Vec<char>) -> (r: bool)
    ensures
        r == (a@ == b@),
{
    if a.len() != b.len() {
        return false;
    }
    let mut i: usize = 0;
    while i < a.len()
        invariant
            a@.len() == b@.len(),
            i <= a@.len(),
            forall|k: int| 0 <= k < i ==> a@[k] == b@[k],
        decreases a@.len() - i,
    {
        if a[i] != b[i] {
            return false;
        }
        i = i + 1;
    }
    assert(a@ =~= b@);
    true
}

pub proof fn lemma_trail_spaces_bound(s: Seq<char>)
    ensures
        trail_spaces(s) <= s.len(),
        trail_spaces(s) < s.len() ==> !is_space(s[s.len() - 1 - trail_spaces(s)]),
    decreases s.len(),
{
    if s.len() > 0 && is_space(s.last()) {
        lemma_trail_spaces_bound(s.drop_last());
    }
}

/// Trimmed text starts and ends with a non-whitespace character.
pub proof fn lemma_trim_ends(s: Seq<char>)
    ensures
        trim(s).len() > 0 ==> !is_space(trim(s)[0]) && !is_space(trim(s).last()),
{
    lemma_lead_spaces_bound(s);
    let t = s.skip(lead_spaces(s) as int);
    lemma_trail_spaces_bound(t);
    if trim(s).len() > 0 {
        assert(trim(s)[0] == t[0]);
        assert(trim(s).last() == t[t.len() - 1 - trail_spaces(t)]);
    }
}

/// Text with no whitespace at either end is its own trim.
pub proof fn lemma_trim_clean(t: Seq<char>)
    requires
        t.len() > 0 ==> !is_space(t[0]) && !is_space(t.last()),
    ensures
        trim(t) == t,
{
    assert(t.skip(0) =~= t);
    assert(t.take(t.len() as int) =~= t);
}

/// Trimming twice is trimming once.
pub proof fn lemma_trim_idempotent(s: Seq<char>)
    ensures
        trim(trim(s)) == trim(s),
{
    lemma_trim_ends(s);
    lemma_trim_clean(trim(s));
}

/// `p` cannot occur in `s` when one of its characters never does.
pub proof fn lemma_absent_char(s: Seq<char>, p: Seq<char>, k: int)
    requires
        0 <= k < p.len(),
        !s.contains(p[k]),
    ensures
        !contains(s, p),
{
    if contains(s, p) {
        let i = choose|i: int| occurs_at(s, p, i);
        assert(s.subrange(i, i + p.len())[k] == s[i + k]);
        assert(s.contains(p[k]));
    }
}

} // verus!
