//! The Lua highlighter of the backend file editor.
//!
//! Deliberately a lexer and not a parser: it has to be right about where a
//! comment or a string ends, because that is what mis-colours the rest of the
//! file, and it has to be cheap enough to run on the buffer every frame the
//! editor is open. It works on the UTF-8 bytes of the source and reports byte
//! ranges.

use vstd::prelude::*;
use vstd::string::StringSliceAdditionalSpecFns;
use vstd::utf8::{
    is_continuation_byte, length_of_first_scalar, pop_first_scalar, valid_first_scalar, valid_utf8,
};

verus! {

/// What one run of the highlighter found.
#[derive(Clone, Copy, Debug, PartialEq, Eq, Structural)]
pub enum Tok {
    Plain,
    Comment,
    Str,
    Number,
    Keyword,
}

/// One coloured run: a byte range `[start, end)` of the source and its kind.
pub type Run = (usize, usize, Tok);

pub open spec fn is_digit(c: u8) -> bool {
    48 <= c <= 57
}

pub open spec fn is_alpha(c: u8) -> bool {
    (65 <= c <= 90) || (97 <= c <= 122)
}

pub open spec fn is_word_byte(c: u8) -> bool {
    is_alpha(c) || is_digit(c) || c == 95
}

/// The two bytes `x`, `y` stand at `i`.
pub open spec fn pair_at(b: Seq<u8>, i: int, x: u8, y: u8) -> bool {
    0 <= i && i + 1 < b.len() && b[i] == x && b[i + 1] == y
}

/// The Lua reserved words, as bytes.
pub open spec fn lua_keywords() -> Seq<Seq<u8>> {
    seq![
        seq![97u8, 110, 100],  // and
        seq![98u8, 114, 101, 97, 107],  // break
        seq![100u8, 111],  // do
        seq![101u8, 108, 115, 101],  // else
        seq![101u8, 108, 115, 101, 105, 102],  // elseif
        seq![101u8, 110, 100],  // end
        seq![102u8, 97, 108, 115, 101],  // false
        seq![102u8, 111, 114],  // for
        seq![102u8, 117, 110, 99, 116, 105, 111, 110],  // function
        seq![103u8, 111, 116, 111],  // goto
        seq![105u8, 102],  // if
        seq![105u8, 110],  // in
        seq![108u8, 111, 99, 97, 108],  // local
        seq![110u8, 105, 108],  // nil
        seq![110u8, 111, 116],  // not
        seq![111u8, 114],  // or
        seq![114u8, 101, 112, 101, 97, 116],  // repeat
        seq![114u8, 101, 116, 117, 114, 110],  // return
        seq![116u8, 104, 101, 110],  // then
        seq![116u8, 114, 117, 101],  // true
        seq![117u8, 110, 116, 105, 108],  // until
        seq![119u8, 104, 105, 108, 101],  // while
    ]
}

pub open spec fn is_keyword(w: Seq<u8>) -> bool {
    lua_keywords().contains(w)
}

/// Just past the first `]]` at or after `k`, or the end of the source.
pub open spec fn close_end(b: Seq<u8>, k: int) -> int
    decreases b.len() - k,
{
    if k < 0 || k + 1 >= b.len() {
        b.len() as int
    } else if pair_at(b, k, 93, 93) {
        k + 2
    } else {
        close_end(b, k + 1)
    }
}

/// The first line feed at or after `k`, or the end of the source.
pub open spec fn line_end(b: Seq<u8>, k: int) -> int
    decreases b.len() - k,
{
    if k < 0 || k >= b.len() {
        b.len() as int
    } else if b[k] == 10 {
        k
    } else {
        line_end(b, k + 1)
    }
}

/// Where a quoted string opened before `j` stops: just past its closing
/// quote, at the line feed that leaves it open, or past the end (a trailing
/// backslash skips two bytes).
pub open spec fn string_stop(b: Seq<u8>, j: int, quote: u8) -> int
    decreases b.len() + 1 - j,
{
    if j < 0 || j >= b.len() {
        j
    } else if b[j] == 92 {
        string_stop(b, j + 2, quote)
    } else if b[j] == 10 {
        j
    } else if b[j] == quote {
        j + 1
    } else {
        string_stop(b, j + 1, quote)
    }
}

/// The end of a number (`number`) or of an identifier starting at `j`.
pub open spec fn word_end(b: Seq<u8>, j: int, number: bool) -> int
    decreases b.len() - j,
{
    if j < 0 || j >= b.len() {
        b.len() as int
    } else if is_word_byte(b[j]) || (number && b[j] == 46) {
        word_end(b, j + 1, number)
    } else {
        j
    }
}

/// The byte length of the character a leading byte starts.
pub open spec fn char_width(c: u8) -> int {
    if c < 0x80 {
        1
    } else if c < 0xC0 {
        1
    } else if c < 0xE0 {
        2
    } else if c < 0xF0 {
        3
    } else {
        4
    }
}

pub open spec fn min_int(a: int, b: int) -> int {
    if a <= b {
        a
    } else {
        b
    }
}

/// The run that starts at `i` before neighbours are joined: its end and kind.
pub open spec fn next_run(b: Seq<u8>, i: int) -> (int, Tok) {
    if pair_at(b, i, 45, 45) {
        if pair_at(b, i + 2, 91, 91) {
            (close_end(b, i + 4), Tok::Comment)
        } else {
            (line_end(b, i), Tok::Comment)
        }
    } else if pair_at(b, i, 91, 91) {
        (close_end(b, i + 2), Tok::Str)
    } else if b[i] == 34 || b[i] == 39 {
        (min_int(string_stop(b, i + 1, b[i]), b.len() as int), Tok::Str)
    } else if is_digit(b[i]) {
        (word_end(b, i, true), Tok::Number)
    } else if is_alpha(b[i]) || b[i] == 95 {
        let j = word_end(b, i, false);
        (j, if is_keyword(b.subrange(i, j)) {
            Tok::Keyword
        } else {
            Tok::Plain
        })
    } else {
        (min_int(i + char_width(b[i]), b.len() as int), Tok::Plain)
    }
}

/// Appending a run: a run of the same kind that continues the last one is
/// joined to it, so neighbouring runs never share a kind.
pub open spec fn push_run(out: Seq<Run>, s: int, e: int, t: Tok) -> Seq<Run> {
    if out.len() > 0 && out.last().2 == t && out.last().1 as int == s {
        out.update(out.len() - 1, (out.last().0, e as usize, t))
    } else {
        out.push((s as usize, e as usize, t))
    }
}

/// The runs of `b` from `i` on, appended to `out`.
pub open spec fn lex_from(b: Seq<u8>, i: int, out: Seq<Run>) -> Seq<Run>
    decreases b.len() - i,
{
    if i < 0 || i >= b.len() {
        out
    } else {
        let (e, t) = next_run(b, i);
        if e <= i || e > b.len() {
            out
        } else {
            lex_from(b, e, push_run(out, i, e, t))
        }
    }
}

/// The coloured runs of a source, as byte ranges.
pub open spec fn spec_tokenize(b: Seq<u8>) -> Seq<Run> {
    lex_from(b, 0, seq![])
}

/// The runs `r` partition `[0, n)`: they start at 0, end at `n`, each is
/// non-empty, each starts where the one before ends, and neighbours differ
/// in kind.
pub open spec fn is_partition(r: Seq<Run>, n: int) -> bool {
    &&& (r.len() == 0 <==> n == 0)
    &&& r.len() > 0 ==> r[0].0 == 0 && r.last().1 == n
    &&& forall|k: int| 0 <= k < r.len() ==> #[trigger] r[k].0 < r[k].1
    &&& forall|k: int| 0 <= k < r.len() - 1 ==> #[trigger] r[k].1 == r[k + 1].0
    &&& forall|k: int| 0 <= k < r.len() - 1 ==> #[trigger] r[k].2 != r[k + 1].2
}

proof fn lemma_close_end(b: Seq<u8>, k: int)
    requires
        0 <= k,
    ensures
        k <= close_end(b, k) <= b.len() || (k > b.len() && close_end(b, k) == b.len()),
        close_end(b, k) <= b.len(),
    decreases b.len() - k,
{
    if k + 1 < b.len() && !pair_at(b, k, 93, 93) {
        lemma_close_end(b, k + 1);
    }
}

proof fn lemma_line_end(b: Seq<u8>, k: int)
    requires
        0 <= k <= b.len(),
    ensures
        k <= line_end(b, k) <= b.len(),
    decreases b.len() - k,
{
    if k < b.len() && b[k] != 10 {
        lemma_line_end(b, k + 1);
    }
}

proof fn lemma_string_stop(b: Seq<u8>, j: int, q: u8)
    requires
        0 <= j,
    ensures
        j <= string_stop(b, j, q),
    decreases b.len() + 1 - j,
{
    if j < b.len() {
        if b[j] == 92 {
            lemma_string_stop(b, j + 2, q);
        } else if b[j] != 10 && b[j] != q {
            lemma_string_stop(b, j + 1, q);
        }
    }
}

/// The line from `k`: no line feed before its end, which is a line feed or
/// the end of the source.
proof fn lemma_line_end_shape(b: Seq<u8>, k: int)
    requires
        0 <= k <= b.len(),
    ensures
        k <= line_end(b, k) <= b.len(),
        forall|m: int| k <= m < line_end(b, k) ==> b[m] != 10,
        line_end(b, k) == b.len() || b[line_end(b, k)] == 10,
    decreases b.len() - k,
{
    if k < b.len() && b[k] != 10 {
        lemma_line_end_shape(b, k + 1);
    }
}

/// The bracketed text from `k`: no `]]` starts before its closing `]]`, and
/// it ends just past that `]]` or at the end of the source.
proof fn lemma_close_end_shape(b: Seq<u8>, k: int)
    requires
        0 <= k,
    ensures
        close_end(b, k) <= b.len(),
        k <= b.len() ==> k <= close_end(b, k),
        forall|m: int| k <= m < close_end(b, k) - 2 ==> !pair_at(b, m, 93, 93),
        close_end(b, k) == b.len() || (close_end(b, k) >= k + 2 && pair_at(b, close_end(b, k) - 2, 93, 93)),
    decreases b.len() - k,
{
    if k + 1 < b.len() && !pair_at(b, k, 93, 93) {
        lemma_close_end_shape(b, k + 1);
    }
}

/// A word from `j`: word bytes (and points, in a number) up to its end,
/// which is the first other byte or the end of the source.
proof fn lemma_word_end_shape(b: Seq<u8>, j: int, number: bool)
    requires
        0 <= j <= b.len(),
    ensures
        j <= word_end(b, j, number) <= b.len(),
        forall|m: int| j <= m < word_end(b, j, number) ==> is_word_byte(#[trigger] b[m]) || (number
            && b[m] == 46),
        word_end(b, j, number) == b.len() || !(is_word_byte(b[word_end(b, j, number)]) || (number
            && b[word_end(b, j, number)] == 46)),
    decreases b.len() - j,
{
    if j < b.len() && (is_word_byte(b[j]) || (number && b[j] == 46)) {
        lemma_word_end_shape(b, j + 1, number);
    }
}

/// What each token is, by how it starts. A comment `--` runs to the line
/// end, not over it; a long comment `--[[` or a long string `[[` runs just
/// past the first `]]` after its opening, or to the end of the source when
/// there is none; a number takes every letter, digit, `_` and `.` after its
/// first digit; a name takes every letter, digit and `_`, and is a keyword
/// exactly when it is a reserved word; any other byte starts one plain
/// character.
pub proof fn lemma_token_shapes(b: Seq<u8>, i: int)
    requires
        0 <= i < b.len(),
    ensures
        ({
            let (e, t) = next_run(b, i);
            &&& i < e <= b.len()
            &&& pair_at(b, i, 45, 45) && !pair_at(b, i + 2, 91, 91) ==> {
                &&& t == Tok::Comment
                &&& forall|m: int| i <= m < e ==> b[m] != 10
                &&& e == b.len() || b[e] == 10
            }
            &&& pair_at(b, i, 45, 45) && pair_at(b, i + 2, 91, 91) ==> {
                &&& t == Tok::Comment
                &&& forall|m: int| i + 4 <= m < e - 2 ==> !pair_at(b, m, 93, 93)
                &&& e == b.len() || (e >= i + 6 && pair_at(b, e - 2, 93, 93))
            }
            &&& pair_at(b, i, 91, 91) ==> {
                &&& t == Tok::Str
                &&& forall|m: int| i + 2 <= m < e - 2 ==> !pair_at(b, m, 93, 93)
                &&& e == b.len() || (e >= i + 4 && pair_at(b, e - 2, 93, 93))
            }
            &&& is_digit(b[i]) ==> {
                &&& t == Tok::Number
                &&& forall|m: int| i <= m < e ==> is_word_byte(#[trigger] b[m]) || b[m] == 46
                &&& e == b.len() || !(is_word_byte(b[e]) || b[e] == 46)
            }
            &&& is_alpha(b[i]) || b[i] == 95 ==> {
                &&& (t == Tok::Keyword <==> lua_keywords().contains(b.subrange(i, e)))
                &&& (t == Tok::Keyword || t == Tok::Plain)
                &&& forall|m: int| i <= m < e ==> is_word_byte(#[trigger] b[m])
                &&& e == b.len() || !is_word_byte(b[e])
            }
            &&& !(b[i] == 45 || b[i] == 91 || b[i] == 34 || b[i] == 39 || is_word_byte(b[i])) ==> {
                &&& t == Tok::Plain
                &&& e == min_int(i + char_width(b[i]), b.len() as int)
            }
        }),
{
    lemma_next_run(b, i);
    if pair_at(b, i, 45, 45) {
        if pair_at(b, i + 2, 91, 91) {
            lemma_close_end_shape(b, i + 4);
        } else {
            lemma_line_end_shape(b, i);
        }
    } else if pair_at(b, i, 91, 91) {
        lemma_close_end_shape(b, i + 2);
    } else if is_digit(b[i]) {
        lemma_word_end_shape(b, i, true);
    } else if is_alpha(b[i]) || b[i] == 95 {
        lemma_word_end_shape(b, i, false);
    }
}

/// How many backslashes stand right before `k`, counted back no further than
/// `lo`.
pub open spec fn backslashes_before(b: Seq<u8>, lo: int, k: int) -> nat
    decreases k - lo,
{
    if k <= lo || k > b.len() {
        0
    } else if b[k - 1] == 92 {
        1 + backslashes_before(b, lo, k - 1)
    } else {
        0
    }
}

/// The byte at `k` of a string whose text starts at `lo` is escaped: an odd
/// number of backslashes stands right before it.
pub open spec fn escaped(b: Seq<u8>, lo: int, k: int) -> bool {
    backslashes_before(b, lo, k) % 2 == 1
}

/// The scan of a string's text from an unescaped byte `j`: it stops just
/// past the first unescaped quote, at the first unescaped line feed, or at
/// the end, and no unescaped quote or line feed comes before that stop.
proof fn lemma_string_stop_unescaped(b: Seq<u8>, lo: int, j: int, q: u8)
    requires
        0 <= lo <= j <= b.len(),
        q != 92,
        q != 10,
        !escaped(b, lo, j),
    ensures
        ({
            let e = min_int(string_stop(b, j, q), b.len() as int);
            &&& j <= e <= b.len()
            &&& forall|k: int|
                j <= k < e && (b[k] == q || b[k] == 10) && !escaped(b, lo, k) ==> k == e - 1
                    && b[k] == q
            &&& e == b.len() || (b[e] == 10 && !escaped(b, lo, e)) || (e - 1 >= j && b[e - 1] == q
                && !escaped(b, lo, e - 1))
        }),
    decreases b.len() + 1 - j,
{
    if j < b.len() {
        if b[j] == 92 {
            assert(backslashes_before(b, lo, j + 1) == 1 + backslashes_before(b, lo, j));
            if j + 2 <= b.len() {
                if b[j + 1] == 92 {
                    assert(backslashes_before(b, lo, j + 2) == 1 + backslashes_before(b, lo, j + 1));
                } else {
                    assert(backslashes_before(b, lo, j + 2) == 0);
                }
                lemma_string_stop_unescaped(b, lo, j + 2, q);
            }
        } else if b[j] != 10 && b[j] != q {
            assert(backslashes_before(b, lo, j + 1) == 0);
            lemma_string_stop_unescaped(b, lo, j + 1, q);
        }
    }
}

/// A quoted string ends at its first unescaped matching quote: a backslash
/// escapes the byte after it, so a quote or line feed right after an odd
/// number of backslashes does not end the string. The string token opened
/// by the quote at `i` runs just past the first unescaped matching quote, up
/// to the first unescaped line feed when the string is left open, or to the
/// end of the source; no unescaped quote or line feed stands inside it.
pub proof fn lemma_strings_end_at_an_unescaped_quote(b: Seq<u8>, i: int)
    requires
        0 <= i < b.len(),
        b[i] == 34 || b[i] == 39,
    ensures
        ({
            let e = next_run(b, i).0;
            let q = b[i];
            &&& next_run(b, i).1 == Tok::Str
            &&& i < e <= b.len()
            &&& forall|k: int|
                i < k < e && (b[k] == q || b[k] == 10) && !escaped(b, i + 1, k) ==> k == e - 1
                    && b[k] == q
            &&& e == b.len() || (b[e] == 10 && !escaped(b, i + 1, e)) || (e - 1 > i && b[e - 1] == q
                && !escaped(b, i + 1, e - 1))
        }),
{
    assert(backslashes_before(b, i + 1, i + 1) == 0);
    lemma_string_stop_unescaped(b, i + 1, i + 1, b[i]);
}

proof fn lemma_word_end(b: Seq<u8>, j: int, number: bool)
    requires
        0 <= j <= b.len(),
    ensures
        j <= word_end(b, j, number) <= b.len(),
    decreases b.len() - j,
{
    if j < b.len() && (is_word_byte(b[j]) || (number && b[j] == 46)) {
        lemma_word_end(b, j + 1, number);
    }
}

/// Every run the rules find is non-empty and stays inside the source.
proof fn lemma_next_run(b: Seq<u8>, i: int)
    requires
        0 <= i < b.len(),
    ensures
        i < next_run(b, i).0 <= b.len(),
{
    if pair_at(b, i, 45, 45) {
        if pair_at(b, i + 2, 91, 91) {
            lemma_close_end(b, i + 4);
        } else {
            lemma_line_end(b, i + 1);
            assert(line_end(b, i) == line_end(b, i + 1));
        }
    } else if pair_at(b, i, 91, 91) {
        lemma_close_end(b, i + 2);
    } else if b[i] == 34 || b[i] == 39 {
        lemma_string_stop(b, i + 1, b[i]);
    } else if is_digit(b[i]) {
        lemma_word_end(b, i + 1, true);
    } else if is_alpha(b[i]) || b[i] == 95 {
        lemma_word_end(b, i + 1, false);
    }
}

proof fn lemma_push_run(out: Seq<Run>, i: int, e: int, t: Tok)
    requires
        is_partition(out, i),
        0 <= i < e <= usize::MAX,
    ensures
        is_partition(push_run(out, i, e, t), e),
{
    let r = push_run(out, i, e, t);
    if out.len() > 0 && out.last().2 == t && out.last().1 as int == i {
        assert forall|k: int| 0 <= k < r.len() - 1 implies #[trigger] r[k].2 != r[k + 1].2 by {
            if k + 1 < out.len() - 1 {
                assert(out[k].2 != out[k + 1].2);
            } else {
                assert(out[k].2 != out[k + 1].2);
            }
        }
        assert forall|k: int| 0 <= k < r.len() - 1 implies #[trigger] r[k].1 == r[k + 1].0 by {
            assert(out[k].1 == out[k + 1].0);
        }
    } else {
        assert forall|k: int| 0 <= k < r.len() - 1 implies #[trigger] r[k].2 != r[k + 1].2 by {
            if k + 1 < out.len() {
                assert(out[k].2 != out[k + 1].2);
            }
        }
    }
}

proof fn lemma_lex_from_partition(b: Seq<u8>, i: int, out: Seq<Run>)
    requires
        0 <= i <= b.len() <= usize::MAX,
        is_partition(out, i),
    ensures
        is_partition(lex_from(b, i, out), b.len() as int),
    decreases b.len() - i,
{
    if i < b.len() {
        lemma_next_run(b, i);
        let (e, t) = next_run(b, i);
        lemma_push_run(out, i, e, t);
        lemma_lex_from_partition(b, e, push_run(out, i, e, t));
    }
}

/// The runs cover the source exactly: no gap, no overlap, no empty run, and
/// no two neighbouring runs of the same kind.
pub proof fn lemma_runs_cover_the_source(b: Seq<u8>)
    requires
        b.len() <= usize::MAX,
    ensures
        is_partition(spec_tokenize(b), b.len() as int),
{
    lemma_lex_from_partition(b, 0, seq![]);
}

/// `k` is where a character starts, or the end of the source.
pub open spec fn char_start(b: Seq<u8>, k: int) -> bool {
    k == b.len() || (0 <= k < b.len() && !is_continuation_byte(b[k]))
}

/// No run splits a character: every run starts and ends where a character
/// starts (or at the end of the source).
pub open spec fn runs_on_char_starts(b: Seq<u8>, r: Seq<Run>) -> bool {
    forall|k: int|
        0 <= k < r.len() ==> char_start(b, #[trigger] r[k].0 as int) && char_start(
            b,
            r[k].1 as int,
        )
}

/// A run's kind agrees with how it starts: a keyword run is a reserved
/// word, a comment starts with `--`, a string with a quote or `[[`, and a
/// number with a digit.
pub open spec fn kind_fits(b: Seq<u8>, r: Run) -> bool {
    let s = r.0 as int;
    match r.2 {
        Tok::Keyword => is_keyword(b.subrange(s, r.1 as int)),
        Tok::Comment => pair_at(b, s, 45, 45),
        Tok::Str => 0 <= s < b.len() && (b[s] == 34 || b[s] == 39 || pair_at(b, s, 91, 91)),
        Tok::Number => 0 <= s < b.len() && is_digit(b[s]),
        Tok::Plain => true,
    }
}

pub open spec fn all_fit(b: Seq<u8>, out: Seq<Run>) -> bool {
    forall|k: int| 0 <= k < out.len() ==> kind_fits(b, #[trigger] out[k])
}

/// A keyword run that ends the runs so far stops before a non-word byte.
pub open spec fn keyword_closed(b: Seq<u8>, out: Seq<Run>) -> bool {
    out.len() > 0 && out.last().2 == Tok::Keyword ==> (out.last().1 >= b.len() || !is_word_byte(
        b[out.last().1 as int],
    ))
}

proof fn lemma_word_end_stops(b: Seq<u8>, j: int, number: bool)
    requires
        0 <= j <= b.len(),
    ensures
        word_end(b, j, number) == b.len() || !is_word_byte(b[word_end(b, j, number)]),
    decreases b.len() - j,
{
    if j < b.len() && (is_word_byte(b[j]) || (number && b[j] == 46)) {
        lemma_word_end_stops(b, j + 1, number);
    }
}

proof fn lemma_lex_from_kinds(b: Seq<u8>, i: int, out: Seq<Run>)
    requires
        0 <= i <= b.len() <= usize::MAX,
        all_fit(b, out),
        keyword_closed(b, out),
        out.len() > 0 ==> out.last().1 == i,
    ensures
        all_fit(b, lex_from(b, i, out)),
    decreases b.len() - i,
{
    if i < b.len() {
        lemma_next_run(b, i);
        let (e, t) = next_run(b, i);
        let r = push_run(out, i, e, t);
        if t == Tok::Keyword {
            lemma_word_end_stops(b, i, false);
            assert(is_word_byte(b[i]));
        }
        if out.len() > 0 && out.last().2 == t && out.last().1 as int == i {
            assert(t != Tok::Keyword);
            assert forall|k: int| 0 <= k < r.len() implies kind_fits(b, #[trigger] r[k]) by {
                if k < out.len() - 1 {
                    assert(r[k] == out[k]);
                } else {
                    assert(kind_fits(b, out[k]));
                }
            }
        } else {
            assert forall|k: int| 0 <= k < r.len() implies kind_fits(b, #[trigger] r[k]) by {
                if k < out.len() {
                    assert(r[k] == out[k]);
                } else {
                    assert(r[k] == (i as usize, e as usize, t));
                }
            }
        }
        lemma_lex_from_kinds(b, e, r);
    }
}

/// The kind of every run agrees with how it starts: keyword runs are
/// reserved words, comments start with `--`, strings with a quote or `[[`,
/// numbers with a digit.
pub proof fn lemma_run_kinds(b: Seq<u8>)
    requires
        b.len() <= usize::MAX,
    ensures
        forall|k: int| 0 <= k < spec_tokenize(b).len() ==> kind_fits(b, #[trigger] spec_tokenize(b)[k]),
{
    lemma_lex_from_kinds(b, 0, seq![]);
}

/// The shape of valid UTF-8: a character's leading byte says how many bytes
/// it takes, those bytes are there, the ones after the first are
/// continuation bytes, and the byte after them starts a character.
proof fn lemma_utf8_shape(b: Seq<u8>, k: int)
    requires
        valid_utf8(b),
        0 <= k < b.len(),
        !is_continuation_byte(b[k]),
    ensures
        k + char_width(b[k]) <= b.len(),
        forall|m: int| k < m < k + char_width(b[k]) ==> is_continuation_byte(#[trigger] b[m]),
        char_start(b, k + char_width(b[k])),
    decreases b.len(),
{
    let w = length_of_first_scalar(b);
    let rest = pop_first_scalar(b);
    assert(rest =~= b.subrange(w, b.len() as int));
    if k < w {
        // Only the first byte of the first scalar is not a continuation byte.
        assert(k == 0);
        assert(char_width(b[0]) == w);
        if w < b.len() {
            assert(valid_utf8(rest));
            assert(rest.len() > 0);
            assert(valid_first_scalar(rest));
            assert(rest[0] == b[w]);
        }
    } else {
        assert(valid_utf8(rest));
        assert(rest[k - w] == b[k]);
        lemma_utf8_shape(rest, k - w);
        assert forall|m: int| k < m < k + char_width(b[k]) implies is_continuation_byte(
            #[trigger] b[m],
        ) by {
            assert(rest[m - w] == b[m]);
        }
        if k + char_width(b[k]) < b.len() {
            assert(rest[k + char_width(b[k]) - w] == b[k + char_width(b[k])]);
        }
    }
}

/// In valid UTF-8 the source starts with a character.
proof fn lemma_utf8_first(b: Seq<u8>)
    requires
        valid_utf8(b),
    ensures
        char_start(b, 0),
{
}

/// The byte after an ASCII byte starts a character.
proof fn lemma_after_ascii(b: Seq<u8>, k: int)
    requires
        valid_utf8(b),
        0 <= k < b.len(),
        b[k] < 0x80,
    ensures
        char_start(b, k + 1),
{
    lemma_utf8_shape(b, k);
}

proof fn lemma_close_end_ascii(b: Seq<u8>, k: int)
    requires
        0 <= k,
    ensures
        close_end(b, k) == b.len() || (k + 2 <= close_end(b, k) <= b.len() && b[close_end(b, k)
            - 1] == 93),
    decreases b.len() - k,
{
    if k + 1 < b.len() && !pair_at(b, k, 93, 93) {
        lemma_close_end_ascii(b, k + 1);
    }
}

proof fn lemma_line_end_ascii(b: Seq<u8>, k: int)
    requires
        0 <= k,
    ensures
        line_end(b, k) == b.len() || (0 <= line_end(b, k) < b.len() && b[line_end(b, k)] == 10),
    decreases b.len() - k,
{
    if k < b.len() && b[k] != 10 {
        lemma_line_end_ascii(b, k + 1);
    }
}

proof fn lemma_string_stop_ascii(b: Seq<u8>, j: int, q: u8)
    requires
        0 <= j,
        q < 0x80,
    ensures
        string_stop(b, j, q) >= b.len() || (0 <= string_stop(b, j, q) < b.len() && b[string_stop(
            b,
            j,
            q,
        )] == 10) || (1 <= string_stop(b, j, q) <= b.len() && b[string_stop(b, j, q) - 1] == q),
    decreases b.len() + 1 - j,
{
    if j < b.len() {
        if b[j] == 92 {
            lemma_string_stop_ascii(b, j + 2, q);
        } else if b[j] != 10 && b[j] != q {
            lemma_string_stop_ascii(b, j + 1, q);
        }
    }
}

proof fn lemma_word_end_ascii(b: Seq<u8>, j: int, number: bool)
    requires
        0 <= j <= b.len(),
    ensures
        word_end(b, j, number) == j || (j < word_end(b, j, number) <= b.len() && b[word_end(
            b,
            j,
            number,
        ) - 1] < 0x80),
    decreases b.len() - j,
{
    if j < b.len() && (is_word_byte(b[j]) || (number && b[j] == 46)) {
        lemma_word_end_ascii(b, j + 1, number);
    }
}

/// A run that starts where a character starts ends where one starts.
proof fn lemma_next_run_on_char_starts(b: Seq<u8>, i: int)
    requires
        valid_utf8(b),
        0 <= i < b.len(),
        char_start(b, i),
    ensures
        char_start(b, next_run(b, i).0),
{
    let n = b.len() as int;
    lemma_next_run(b, i);
    if pair_at(b, i, 45, 45) {
        if pair_at(b, i + 2, 91, 91) {
            lemma_close_end_ascii(b, i + 4);
            let e = close_end(b, i + 4);
            if e < n {
                lemma_after_ascii(b, e - 1);
            }
        } else {
            lemma_line_end_ascii(b, i);
        }
    } else if pair_at(b, i, 91, 91) {
        lemma_close_end_ascii(b, i + 2);
        let e = close_end(b, i + 2);
        if e < n {
            lemma_after_ascii(b, e - 1);
        }
    } else if b[i] == 34 || b[i] == 39 {
        lemma_string_stop_ascii(b, i + 1, b[i]);
        lemma_string_stop(b, i + 1, b[i]);
        let e = string_stop(b, i + 1, b[i]);
        if e < n && b[e] != 10 {
            lemma_after_ascii(b, e - 1);
        }
    } else if is_digit(b[i]) {
        lemma_word_end_ascii(b, i + 1, true);
        assert(word_end(b, i, true) == word_end(b, i + 1, true));
        let e = word_end(b, i, true);
        if e < n {
            if e == i + 1 {
                lemma_after_ascii(b, i);
            } else {
                lemma_after_ascii(b, e - 1);
            }
        }
    } else if is_alpha(b[i]) || b[i] == 95 {
        lemma_word_end_ascii(b, i + 1, false);
        assert(word_end(b, i, false) == word_end(b, i + 1, false));
        let e = word_end(b, i, false);
        if e < n {
            if e == i + 1 {
                lemma_after_ascii(b, i);
            } else {
                lemma_after_ascii(b, e - 1);
            }
        }
    } else {
        lemma_utf8_shape(b, i);
    }
}

proof fn lemma_push_run_on_char_starts(b: Seq<u8>, out: Seq<Run>, i: int, e: int, t: Tok)
    requires
        runs_on_char_starts(b, out),
        char_start(b, i),
        char_start(b, e),
        0 <= i < e <= usize::MAX,
    ensures
        runs_on_char_starts(b, push_run(out, i, e, t)),
{
    let r = push_run(out, i, e, t);
    assert forall|k: int| 0 <= k < r.len() implies char_start(b, #[trigger] r[k].0 as int)
        && char_start(b, r[k].1 as int) by {
        if k < out.len() {
            assert(char_start(b, out[k].0 as int));
        }
    }
}

proof fn lemma_lex_from_on_char_starts(b: Seq<u8>, i: int, out: Seq<Run>)
    requires
        valid_utf8(b),
        b.len() <= usize::MAX,
        0 <= i <= b.len(),
        char_start(b, i),
        runs_on_char_starts(b, out),
    ensures
        runs_on_char_starts(b, lex_from(b, i, out)),
    decreases b.len() - i,
{
    if i < b.len() {
        lemma_next_run(b, i);
        lemma_next_run_on_char_starts(b, i);
        let (e, t) = next_run(b, i);
        lemma_push_run_on_char_starts(b, out, i, e, t);
        lemma_lex_from_on_char_starts(b, e, push_run(out, i, e, t));
    }
}

/// A multibyte character is stepped over whole: in a valid UTF-8 source no
/// run starts or ends inside a character, so every run is itself text.
pub proof fn lemma_runs_keep_characters_whole(b: Seq<u8>)
    requires
        valid_utf8(b),
        b.len() <= usize::MAX,
    ensures
        runs_on_char_starts(b, spec_tokenize(b)),
{
    lemma_utf8_first(b);
    lemma_lex_from_on_char_starts(b, 0, seq![]);
}

fn close_end_exec(b: &[u8], k: usize) -> (r: usize)
    requires
        k <= b@.len(),
    ensures
        r == close_end(b@, k as int),
{
    let n = b.len();
    let mut p = k;
    while n > 0 && p < n - 1 && !(b[p] == 93 && b[p + 1] == 93)
        invariant
            n == b@.len(),
            k <= p,
            close_end(b@, p as int) == close_end(b@, k as int),
        decreases n - p,
    {
        p = p + 1;
    }
    if n > 0 && p < n - 1 {
        p + 2
    } else {
        n
    }
}

fn line_end_exec(b: &[u8], k: usize) -> (r: usize)
    requires
        k <= b@.len(),
    ensures
        r == line_end(b@, k as int),
{
    let n = b.len();
    let mut p = k;
    while p < n && b[p] != 10
        invariant
            n == b@.len(),
            k <= p <= n,
            line_end(b@, p as int) == line_end(b@, k as int),
        decreases n - p,
    {
        p = p + 1;
    }
    p
}

fn string_end_exec(b: &[u8], j0: usize, quote: u8) -> (r: usize)
    requires
        j0 <= b@.len(),
    ensures
        r == min_int(string_stop(b@, j0 as int, quote), b@.len() as int),
{
    let n = b.len();
    let mut j = j0;
    while j < n
        invariant
            n == b@.len(),
            j0 <= j <= n,
            string_stop(b@, j as int, quote) == string_stop(b@, j0 as int, quote),
        decreases n - j,
    {
        let c = b[j];
        if c == 92 {
            if n - j <= 2 {
                assert(string_stop(b@, j as int, quote) == string_stop(b@, j + 2, quote));
                assert(string_stop(b@, j + 2, quote) == j + 2);
                return n;
            }
            j = j + 2;
        } else if c == 10 {
            return j;
        } else if c == quote {
            return j + 1;
        } else {
            j = j + 1;
        }
    }
    j
}

fn word_end_exec(b: &[u8], j0: usize, number: bool) -> (r: usize)
    requires
        j0 <= b@.len(),
    ensures
        r == word_end(b@, j0 as int, number),
{
    let n = b.len();
    let mut j = j0;
    while j < n && (is_word_byte_exec(b[j]) || (number && b[j] == 46))
        invariant
            n == b@.len(),
            j0 <= j <= n,
            word_end(b@, j as int, number) == word_end(b@, j0 as int, number),
        decreases n - j,
    {
        j = j + 1;
    }
    j
}

fn is_word_byte_exec(c: u8) -> (r: bool)
    ensures
        r == is_word_byte(c),
{
    (65 <= c && c <= 90) || (97 <= c && c <= 122) || (48 <= c && c <= 57) || c == 95
}

/// `b[i..j]` spells `word`.
fn spells(b: &[u8], i: usize, j: usize, word: &[u8]) -> (r: bool)
    requires
        i <= j <= b@.len(),
    ensures
        r == (b@.subrange(i as int, j as int) == word@),
{
    if j - i != word.len() {
        return false;
    }
    let mut k: usize = 0;
    while k < word.len()
        invariant
            i <= j <= b@.len(),
            j - i == word@.len(),
            0 <= k <= word@.len(),
            forall|m: int| 0 <= m < k ==> b@[i + m] == word@[m],
        decreases word@.len() - k,
    {
        if b[i + k] != word[k] {
            assert(b@.subrange(i as int, j as int)[k as int] != word@[k as int]);
            return false;
        }
        k = k + 1;
    }
    assert(b@.subrange(i as int, j as int) =~= word@);
    true
}

fn is_keyword_exec(b: &[u8], i: usize, j: usize) -> (r: bool)
    requires
        i <= j <= b@.len(),
    ensures
        r == is_keyword(b@.subrange(i as int, j as int)),
{
    let w = Ghost(b@.subrange(i as int, j as int));
    let kws: [&[u8]; 22] = [
        &[97u8, 110, 100],
        &[98u8, 114, 101, 97, 107],
        &[100u8, 111],
        &[101u8, 108, 115, 101],
        &[101u8, 108, 115, 101, 105, 102],
        &[101u8, 110, 100],
        &[102u8, 97, 108, 115, 101],
        &[102u8, 111, 114],
        &[102u8, 117, 110, 99, 116, 105, 111, 110],
        &[103u8, 111, 116, 111],
        &[105u8, 102],
        &[105u8, 110],
        &[108u8, 111, 99, 97, 108],
        &[110u8, 105, 108],
        &[110u8, 111, 116],
        &[111u8, 114],
        &[114u8, 101, 112, 101, 97, 116],
        &[114u8, 101, 116, 117, 114, 110],
        &[116u8, 104, 101, 110],
        &[116u8, 114, 117, 101],
        &[117u8, 110, 116, 105, 108],
        &[119u8, 104, 105, 108, 101],
    ];
    assert(kws@.map_values(|s: &[u8]| s@) =~= lua_keywords());
    let mut k: usize = 0;
    while k < 22
        invariant
            i <= j <= b@.len(),
            w@ == b@.subrange(i as int, j as int),
            kws@.map_values(|s: &[u8]| s@) == lua_keywords(),
            0 <= k <= 22,
            forall|m: int| 0 <= m < k ==> lua_keywords()[m] != w@,
        decreases 22 - k,
    {
        if spells(b, i, j, kws[k]) {
            assert(lua_keywords()[k as int] == w@);
            return true;
        }
        k = k + 1;
    }
    false
}

fn next_run_exec(b: &[u8], i: usize) -> (r: (usize, Tok))
    requires
        i < b@.len(),
    ensures
        r.0 == next_run(b@, i as int).0,
        r.1 == next_run(b@, i as int).1,
{
    let n = b.len();
    let c = b[i];
    if n - i > 1 && c == 45 && b[i + 1] == 45 {
        if n - i > 3 && b[i + 2] == 91 && b[i + 3] == 91 {
            (close_end_exec(b, i + 4), Tok::Comment)
        } else {
            (line_end_exec(b, i), Tok::Comment)
        }
    } else if n - i > 1 && c == 91 && b[i + 1] == 91 {
        (close_end_exec(b, i + 2), Tok::Str)
    } else if c == 34 || c == 39 {
        (string_end_exec(b, i + 1, c), Tok::Str)
    } else if 48 <= c && c <= 57 {
        (word_end_exec(b, i, true), Tok::Number)
    } else if (65 <= c && c <= 90) || (97 <= c && c <= 122) || c == 95 {
        let j = word_end_exec(b, i, false);
        proof {
            lemma_word_end(b@, i as int, false);
        }
        if is_keyword_exec(b, i, j) {
            (j, Tok::Keyword)
        } else {
            (j, Tok::Plain)
        }
    } else {
        let width: usize = if c < 0xC0 {
            1
        } else if c < 0xE0 {
            2
        } else if c < 0xF0 {
            3
        } else {
            4
        };
        if width <= n - i {
            (i + width, Tok::Plain)
        } else {
            (n, Tok::Plain)
        }
    }
}

fn push_run_exec(out: &mut Vec<Run>, s: usize, e: usize, t: Tok)
    ensures
        final(out)@ == push_run(old(out)@, s as int, e as int, t),
{
    let len = out.len();
    if len > 0 && out[len - 1].2 == t && out[len - 1].1 == s {
        let first = out[len - 1].0;
        out.set(len - 1, (first, e, t));
    } else {
        out.push((s, e, t));
    }
}

/// Split Lua source into coloured runs: byte ranges, contiguous and covering
/// the source end to end, neighbouring runs of one kind joined.
pub fn tokenize(src: &str) -> (runs: Vec<Run>)
    ensures
        runs@ == spec_tokenize(src.spec_bytes()),
        is_partition(runs@, src.spec_bytes().len() as int),
        runs_on_char_starts(src.spec_bytes(), runs@),
{
    let bytes = src.as_bytes();
    let n = bytes.len();
    let mut out: Vec<Run> = Vec::new();
    let mut i: usize = 0;
    while i < n
        invariant
            n == bytes@.len(),
            bytes@ == src.spec_bytes(),
            i <= n,
            lex_from(bytes@, i as int, out@) == spec_tokenize(bytes@),
        decreases n - i,
    {
        let (e, t) = next_run_exec(bytes, i);
        proof {
            lemma_next_run(bytes@, i as int);
        }
        push_run_exec(&mut out, i, e, t);
        i = e;
    }
    proof {
        lemma_runs_cover_the_source(bytes@);
        vstd::utf8::encode_utf8_valid_utf8(src@);
        lemma_runs_keep_characters_whole(bytes@);
    }
    out
}

} // verus!
