//! Help, one at a time: which card is open, and the text of tooltips.
//!
//! A parameter's help opens in place, in a card under its row; a panel's help
//! opens centred, in the help overlay. Only one help is ever open: opening a
//! card closes the one before it, opening the overlay closes any card, and a
//! click anywhere but on the open card or a help trigger closes it. A
//! tooltip shows the first sentence of a help body, as plain text.

use vstd::prelude::*;
use crate::text::{
    chars_of, extend_chars, find_char, find_char_exec, is_space, is_space_exec, lead_spaces,
    lemma_find_char, lemma_lead_spaces, lemma_lead_spaces_bound, lemma_word_len,
    lemma_word_len_bound, lower, lower_exec, slice_chars, starts_with, starts_with_exec,
    string_of, trim, trim_bounds, word_len, words,
};

verus! {

/// How long an excerpt may run before it is cut.
pub const EXCERPT_MAX: usize = 160;

/// A break the markup asked for, kept apart from the words until the cut.
pub const BREAK: char = '\u{1}';

/// Whether a tag (trimmed, lowercased) ends the excerpt as a sentence would.
pub open spec fn is_break_tag(tag: Seq<char>) -> bool {
    starts_with(tag, "br"@) || starts_with(tag, "p"@) || starts_with(tag, "/p"@)
        || starts_with(tag, "li"@)
}

/// The tag between `<` at `o` and `>` at `c`, trimmed and lowercased.
pub open spec fn tag_name(s: Seq<char>, o: int, c: int) -> Seq<char> {
    lower(trim(s.subrange(o + 1, c)))
}

/// `s` from `pos` on with its tags dropped; a breaking tag leaves a space
/// and a `BREAK` mark in its place. An unclosed `<` and all that follows it
/// stay as they are.
pub open spec fn strip_from(s: Seq<char>, pos: int) -> Seq<char>
    decreases s.len() - pos,
{
    if pos < 0 || pos > s.len() {
        seq![]
    } else {
        match find_char(s, '<', pos) {
            None => s.skip(pos),
            Some(o) => match find_char(s, '>', o) {
                None => s.skip(pos),
                Some(c) => {
                    proof {
                        lemma_find_char(s, '<', pos);
                        lemma_find_char(s, '>', o);
                    }
                    s.subrange(pos, o) + (if is_break_tag(tag_name(s, o, c)) {
                        seq![' ', BREAK]
                    } else {
                        seq![]
                    }) + strip_from(s, c + 1)
                },
            },
        }
    }
}

pub open spec fn ends_sentence(w: Seq<char>) -> bool {
    w.len() > 0 && (w.last() == '.' || w.last() == '!' || w.last() == '?')
}

/// Words taken one by one onto `out`: a break word stops the excerpt (cut if
/// something was taken), a word that would run past `EXCERPT_MAX` stops it
/// (cut), and a word ending a sentence is the last one taken. Returns what
/// was taken and whether something was left out.
pub open spec fn pick(ws: Seq<Seq<char>>, out: Seq<char>) -> (Seq<char>, bool)
    decreases ws.len(),
{
    if ws.len() == 0 {
        (out, false)
    } else {
        let w = ws[0];
        let sep: int = if out.len() > 0 {
            1
        } else {
            0
        };
        if w.len() > 0 && w[0] == BREAK {
            (out, out.len() > 0)
        } else if out.len() + w.len() + sep > EXCERPT_MAX {
            (out, true)
        } else {
            let next = if out.len() > 0 {
                out.push(' ') + w
            } else {
                w
            };
            if ends_sentence(w) {
                (next, false)
            } else {
                pick(ws.skip(1), next)
            }
        }
    }
}

/// The excerpt of a help body.
pub open spec fn excerpt_spec(body: Seq<char>) -> Seq<char> {
    let (out, cut) = pick(words(strip_from(body, 0)), seq![]);
    if cut {
        out.push('\u{2026}')
    } else {
        out
    }
}

fn is_break_tag_exec(v: &Vec<char>, o: usize, c: usize) -> (r: bool)
    requires
        o < c <= v@.len(),
    ensures
        r == is_break_tag(tag_name(v@, o as int, c as int)),
{
    let inner = slice_chars(v, o + 1, c);
    let (a, b) = trim_bounds(&inner);
    let trimmed = slice_chars(&inner, a, b);
    let tag = lower_exec(&trimmed);
    starts_with_exec(&tag, "br") || starts_with_exec(&tag, "p") || starts_with_exec(&tag, "/p")
        || starts_with_exec(&tag, "li")
}

fn strip_tags(v: &Vec<char>) -> (t: Vec<char>)
    ensures
        t@ == strip_from(v@, 0),
{
    let n = v.len();
    let mut text: Vec<char> = Vec::new();
    let mut pos: usize = 0;
    loop
        invariant
            n == v@.len(),
            pos <= n,
            strip_from(v@, 0) == text@ + strip_from(v@, pos as int),
        decreases n - pos,
    {
        let ghost before = text@;
        match find_char_exec(v, '<', pos) {
            None => {
                let rest = slice_chars(v, pos, n);
                extend_chars(&mut text, &rest);
                assert(v@.subrange(pos as int, n as int) =~= v@.skip(pos as int));
                return text;
            },
            Some(o) => {
                proof {
                    lemma_find_char(v@, '<', pos as int);
                }
                match find_char_exec(v, '>', o) {
                    None => {
                        let rest = slice_chars(v, pos, n);
                        extend_chars(&mut text, &rest);
                        assert(v@.subrange(pos as int, n as int) =~= v@.skip(pos as int));
                        return text;
                    },
                    Some(c) => {
                        proof {
                            lemma_find_char(v@, '>', o as int);
                        }
                        let head = slice_chars(v, pos, o);
                        extend_chars(&mut text, &head);
                        if is_break_tag_exec(v, o, c) {
                            text.push(' ');
                            text.push(BREAK);
                        }
                        assert(text@ =~= before + v@.subrange(pos as int, o as int) + (
                        if is_break_tag(tag_name(v@, o as int, c as int)) {
                            seq![' ', BREAK]
                        } else {
                            seq![]
                        }));
                        pos = c + 1;
                    },
                }
            },
        }
    }
}

/// The words of `s` from `p` on: spaces up to `a`, then a word up to `b`.
proof fn lemma_next_word(s: Seq<char>, p: int, a: int, b: int)
    requires
        0 <= p <= a <= b <= s.len(),
        forall|k: int| p <= k < a ==> is_space(#[trigger] s[k]),
        a < s.len(),
        !is_space(s[a]),
        forall|k: int| a <= k < b ==> !is_space(#[trigger] s[k]),
        b == s.len() || is_space(s[b]),
    ensures
        words(s.skip(p)) == seq![s.subrange(a, b)] + words(s.skip(b)),
{
    let t0 = s.skip(p);
    lemma_lead_spaces(t0, a - p);
    assert(t0.skip(a - p) =~= s.skip(a));
    let t = s.skip(a);
    assert(lead_spaces(t) == 0) by {
        assert(t[0] == s[a]);
    }
    lemma_word_len(t, b - a);
    let u = t.skip(b - a);
    assert(u =~= s.skip(b));
    assert(word_len(u) == 0) by {
        if b < s.len() {
            assert(u[0] == s[b]);
        }
    }
    assert(t.take(b - a) =~= s.subrange(a, b));
}

/// No words from `p` on when only spaces remain.
proof fn lemma_no_word(s: Seq<char>, p: int)
    requires
        0 <= p <= s.len(),
        forall|k: int| p <= k < s.len() ==> is_space(#[trigger] s[k]),
    ensures
        words(s.skip(p)) == Seq::<Seq<char>>::empty(),
{
    let t0 = s.skip(p);
    lemma_lead_spaces(t0, s.len() - p);
    lemma_lead_spaces_bound(t0);
}

fn pick_words(text: &Vec<char>) -> (r: (Vec<char>, bool))
    ensures
        (r.0@, r.1) == pick(words(text@), seq![]),
{
    let n = text.len();
    let mut out: Vec<char> = Vec::new();
    let mut p: usize = 0;
    assert(text@.skip(0) =~= text@);
    loop
        invariant
            n == text@.len(),
            p <= n,
            out@.len() <= EXCERPT_MAX,
            pick(words(text@), seq![]) == pick(words(text@.skip(p as int)), out@),
        decreases n - p,
    {
        let mut a: usize = p;
        while a < n && is_space_exec(text[a])
            invariant
                n == text@.len(),
                p <= a <= n,
                forall|k: int| p <= k < a ==> is_space(#[trigger] text@[k]),
            decreases n - a,
        {
            a = a + 1;
        }
        if a == n {
            proof {
                lemma_no_word(text@, p as int);
            }
            return (out, false);
        }
        let mut b: usize = a;
        while b < n && !is_space_exec(text[b])
            invariant
                n == text@.len(),
                a <= b <= n,
                forall|k: int| a <= k < b ==> !is_space(#[trigger] text@[k]),
            decreases n - b,
        {
            b = b + 1;
        }
        proof {
            lemma_next_word(text@, p as int, a as int, b as int);
            assert(words(text@.skip(p as int))[0] == text@.subrange(a as int, b as int));
            assert(words(text@.skip(p as int)).skip(1) =~= words(text@.skip(b as int)));
        }
        let word = slice_chars(text, a, b);
        if text[a] == BREAK {
            let cut = out.len() > 0;
            return (out, cut);
        }
        let sep: usize = if out.len() > 0 {
            1
        } else {
            0
        };
        let used = out.len() + sep;
        if used > EXCERPT_MAX || b - a > EXCERPT_MAX - used {
            return (out, true);
        }
        let ghost prev = out@;
        if out.len() > 0 {
            out.push(' ');
        }
        extend_chars(&mut out, &word);
        let last = text[b - 1];
        if last == '.' || last == '!' || last == '?' {
            return (out, false);
        }
        p = b;
    }
}

/// The first sentence of a help body, as plain text, for a tooltip: the tags
/// dropped (`<br>`, `<p>` and `<li>` end the excerpt as a sentence would),
/// whitespace collapsed, and the rest cut at the first sentence end or at
/// `EXCERPT_MAX` characters, with an ellipsis when something was left out.
pub fn excerpt(body: &str) -> (r: String)
    ensures
        r@ == excerpt_spec(body@),
        r@.len() <= EXCERPT_MAX + 1,
        collapsed(r@),
{
    let v = chars_of(body);
    let text = strip_tags(&v);
    let (mut out, cut) = pick_words(&text);
    proof {
        lemma_pick_bound(words(strip_from(v@, 0)), seq![]);
        lemma_excerpt_collapses_whitespace(v@);
    }
    if cut {
        out.push('\u{2026}');
    }
    string_of(&out)
}

/// Whatever is taken stays within `EXCERPT_MAX` characters.
proof fn lemma_pick_bound(ws: Seq<Seq<char>>, out: Seq<char>)
    requires
        out.len() <= EXCERPT_MAX,
    ensures
        pick(ws, out).0.len() <= EXCERPT_MAX,
    decreases ws.len(),
{
    if ws.len() > 0 {
        let w = ws[0];
        let sep: int = if out.len() > 0 {
            1
        } else {
            0
        };
        if !(w.len() > 0 && w[0] == BREAK) && out.len() + w.len() + sep <= EXCERPT_MAX {
            let next = if out.len() > 0 {
                out.push(' ') + w
            } else {
                w
            };
            lemma_pick_bound(ws.skip(1), next);
        }
    }
}

/// Whitespace collapsed: the only whitespace is a plain space, each one
/// single and standing between two other characters.
pub open spec fn collapsed(s: Seq<char>) -> bool {
    forall|k: int|
        0 <= k < s.len() && is_space(#[trigger] s[k]) ==> s[k] == ' ' && 0 < k < s.len() - 1
            && !is_space(s[k - 1]) && !is_space(s[k + 1])
}

pub open spec fn is_word(w: Seq<char>) -> bool {
    w.len() > 0 && forall|k: int| 0 <= k < w.len() ==> !is_space(#[trigger] w[k])
}

proof fn lemma_word_len_prefix(s: Seq<char>)
    ensures
        forall|k: int| 0 <= k < word_len(s) ==> !is_space(#[trigger] s[k]),
    decreases s.len(),
{
    lemma_word_len_bound(s);
    if s.len() > 0 && !is_space(s[0]) {
        lemma_word_len_prefix(s.drop_first());
        assert forall|k: int| 0 <= k < word_len(s) implies !is_space(#[trigger] s[k]) by {
            if k > 0 {
                assert(s[k] == s.drop_first()[k - 1]);
            }
        }
    }
}

/// Every word is a non-empty run of non-whitespace characters.
proof fn lemma_words_are_words(s: Seq<char>)
    ensures
        forall|i: int| 0 <= i < words(s).len() ==> is_word(#[trigger] words(s)[i]),
    decreases s.len(),
{
    let t = s.skip(lead_spaces(s) as int);
    if !(t.len() == 0 || lead_spaces(s) > s.len() || word_len(t) == 0) {
        lemma_word_len_bound(t);
        lemma_word_len_prefix(t);
        let w = t.take(word_len(t) as int);
        let rest = t.skip(word_len(t) as int);
        lemma_words_are_words(rest);
        assert(is_word(w));
        assert forall|i: int| 0 <= i < words(s).len() implies is_word(#[trigger] words(s)[i]) by {
            if i > 0 {
                assert(words(s)[i] == words(rest)[i - 1]);
            }
        }
    }
}

proof fn lemma_join_collapsed(out: Seq<char>, w: Seq<char>)
    requires
        collapsed(out),
        out.len() > 0 ==> !is_space(out.last()) && !is_space(out[0]),
        is_word(w),
    ensures
        ({
            let next = if out.len() > 0 {
                out.push(' ') + w
            } else {
                w
            };
            collapsed(next) && next.len() > 0 && !is_space(next.last()) && !is_space(next[0])
        }),
{
    if out.len() > 0 {
        let next = out.push(' ') + w;
        assert forall|k: int| 0 <= k < next.len() && is_space(#[trigger] next[k]) implies next[k]
            == ' ' && 0 < k < next.len() - 1 && !is_space(next[k - 1]) && !is_space(next[k + 1]) by {
            if k < out.len() {
                assert(next[k] == out[k]);
                if k + 1 < out.len() {
                    assert(next[k + 1] == out[k + 1]);
                }
                if k > 0 {
                    assert(next[k - 1] == out[k - 1]);
                }
            } else if k == out.len() {
                assert(next[k - 1] == out.last());
                assert(next[k + 1] == w[0]);
            } else {
                assert(next[k] == w[k - out.len() - 1]);
            }
        }
        assert(next.last() == w.last());
        assert(next[0] == out[0]);
    }
}

proof fn lemma_pick_collapsed(ws: Seq<Seq<char>>, out: Seq<char>)
    requires
        forall|i: int| 0 <= i < ws.len() ==> is_word(#[trigger] ws[i]),
        collapsed(out),
        out.len() > 0 ==> !is_space(out.last()) && !is_space(out[0]),
    ensures
        collapsed(pick(ws, out).0),
        pick(ws, out).0.len() > 0 ==> !is_space(pick(ws, out).0.last()) && !is_space(
            pick(ws, out).0[0],
        ),
    decreases ws.len(),
{
    if ws.len() > 0 {
        let w = ws[0];
        let sep: int = if out.len() > 0 {
            1
        } else {
            0
        };
        assert(is_word(w));
        if !(w.len() > 0 && w[0] == BREAK) && out.len() + w.len() + sep <= EXCERPT_MAX {
            lemma_join_collapsed(out, w);
            let next = if out.len() > 0 {
                out.push(' ') + w
            } else {
                w
            };
            if !ends_sentence(w) {
                assert forall|i: int| 0 <= i < ws.skip(1).len() implies is_word(
                    #[trigger] ws.skip(1)[i],
                ) by {
                    assert(ws.skip(1)[i] == ws[i + 1]);
                }
                lemma_pick_collapsed(ws.skip(1), next);
            }
        }
    }
}

/// An excerpt's whitespace is collapsed: whatever runs of spaces, tabs and
/// line breaks the body had, the excerpt has single plain spaces between its
/// words and none at either end.
pub proof fn lemma_excerpt_collapses_whitespace(body: Seq<char>)
    ensures
        collapsed(excerpt_spec(body)),
{
    let ws = words(strip_from(body, 0));
    lemma_words_are_words(strip_from(body, 0));
    lemma_pick_collapsed(ws, seq![]);
    let (out, cut) = pick(ws, seq![]);
    if cut {
        let r = out.push('\u{2026}');
        assert forall|k: int| 0 <= k < r.len() && is_space(#[trigger] r[k]) implies r[k] == ' '
            && 0 < k < r.len() - 1 && !is_space(r[k - 1]) && !is_space(r[k + 1]) by {
            if k < out.len() {
                assert(r[k] == out[k]);
                if k + 1 < out.len() {
                    assert(r[k + 1] == out[k + 1]);
                } else {
                    assert(!is_space(out.last()));
                }
                if k > 0 {
                    assert(r[k - 1] == out[k - 1]);
                }
            }
        }
    }
}

/// Words joined by single spaces, as `pick` joins what it takes.
pub open spec fn join(ws: Seq<Seq<char>>) -> Seq<char>
    decreases ws.len(),
{
    if ws.len() == 0 {
        seq![]
    } else if ws.len() == 1 {
        ws[0]
    } else {
        join(ws.drop_last()).push(' ') + ws.last()
    }
}

proof fn lemma_words_of_word(w: Seq<char>)
    requires
        is_word(w),
    ensures
        words(w) == seq![w],
{
    lemma_lead_spaces(w, 0);
    assert(w.skip(0) =~= w);
    lemma_word_len(w, w.len() as int);
    assert(w.skip(w.len() as int) =~= Seq::<char>::empty());
    assert(w.take(w.len() as int) =~= w);
    assert(words(Seq::<char>::empty()) == Seq::<Seq<char>>::empty());
}

/// A space then a word add that word to the words.
proof fn lemma_words_then_word(a: Seq<char>, w: Seq<char>)
    requires
        is_word(w),
    ensures
        words(a.push(' ') + w) == words(a) + seq![w],
    decreases a.len(),
{
    let x = a.push(' ') + w;
    lemma_lead_spaces_bound(a);
    let l = lead_spaces(a) as int;
    if l == a.len() {
        assert forall|k: int| 0 <= k < a.len() + 1 implies is_space(#[trigger] x[k]) by {
            if k < a.len() {
                lemma_all_lead(a, k);
                assert(x[k] == a[k]);
            }
        }
        lemma_lead_spaces(x, a.len() + 1int);
        let rest = x.skip(a.len() + 1int);
        assert(rest =~= w);
        lemma_lead_spaces(w, 0);
        assert(w.skip(0) =~= w);
        assert(lead_spaces(x) == a.len() + 1);
        lemma_words_of_word(w);
        lemma_words_all_spaces(a);
        assert(words(a) + seq![w] =~= seq![w]);
    } else {
        assert forall|k: int| 0 <= k < l implies is_space(#[trigger] a[k]) by {
            lemma_all_lead(a, k);
        }
        assert forall|k: int| 0 <= k < l implies is_space(#[trigger] x[k]) by {
            assert(x[k] == a[k]);
        }
        lemma_lead_spaces(x, l);
        lemma_lead_spaces(a, l);
        let ta = a.skip(l);
        let t = x.skip(l);
        assert(t =~= ta.push(' ') + w);
        assert(lead_spaces(ta) == 0) by {
            assert(ta[0] == a[l]);
        }
        assert(lead_spaces(t) == 0) by {
            assert(t[0] == a[l]);
        }
        lemma_word_len_bound(ta);
        let kk = word_len(ta) as int;
        lemma_word_len_prefix(ta);
        assert(kk > 0) by {
            assert(!is_space(ta[0]));
        }
        assert forall|k: int| 0 <= k < kk implies !is_space(#[trigger] t[k]) by {
            assert(t[k] == ta[k]);
        }
        lemma_word_len(t, kk);
        assert(word_len(t.skip(kk)) == 0) by {
            if kk < ta.len() {
                assert(t.skip(kk)[0] == ta[kk]);
            } else {
                assert(t.skip(kk)[0] == ' ');
            }
        }
        assert(word_len(t) == kk);
        lemma_word_len(ta, kk);
        let a2 = ta.skip(kk);
        assert(t.skip(kk) =~= a2.push(' ') + w);
        assert(t.take(kk) =~= ta.take(kk));
        lemma_words_then_word(a2, w);
        assert(words(x) == seq![ta.take(kk)] + words(a2.push(' ') + w));
        assert(words(a) == seq![ta.take(kk)] + words(a2));
        assert(words(x) =~= words(a) + seq![w]);
    }
}

proof fn lemma_all_lead(a: Seq<char>, k: int)
    requires
        0 <= k < lead_spaces(a),
    ensures
        is_space(a[k]),
    decreases a.len(),
{
    lemma_lead_spaces_bound(a);
    if k > 0 {
        assert(a.drop_first()[k - 1] == a[k]);
        lemma_all_lead(a.drop_first(), k - 1);
    }
}

proof fn lemma_words_all_spaces(a: Seq<char>)
    requires
        lead_spaces(a) == a.len(),
    ensures
        words(a) == Seq::<Seq<char>>::empty(),
{
    assert(a.skip(a.len() as int) =~= Seq::<char>::empty());
}

pub open spec fn all_words(ws: Seq<Seq<char>>) -> bool {
    forall|i: int| 0 <= i < ws.len() ==> is_word(#[trigger] ws[i])
}

/// Words joined by single spaces split back into those words.
proof fn lemma_words_of_join(ws: Seq<Seq<char>>)
    requires
        all_words(ws),
    ensures
        words(join(ws)) == ws,
    decreases ws.len(),
{
    if ws.len() == 0 {
        assert(words(Seq::<char>::empty()) == Seq::<Seq<char>>::empty());
    } else if ws.len() == 1 {
        assert(is_word(ws[0]));
        lemma_words_of_word(ws[0]);
        assert(seq![ws[0]] =~= ws);
    } else {
        let init = ws.drop_last();
        assert(all_words(init)) by {
            assert forall|i: int| 0 <= i < init.len() implies is_word(#[trigger] init[i]) by {
                assert(init[i] == ws[i]);
            }
        }
        lemma_words_of_join(init);
        assert(is_word(ws.last()));
        lemma_words_then_word(join(init), ws.last());
        assert(init + seq![ws.last()] =~= ws);
    }
}

/// No `<` has a `>` after it: there is no tag left to drop.
pub open spec fn tag_free(s: Seq<char>) -> bool {
    forall|i: int, j: int| #![trigger s[i], s[j]] 0 <= i < j < s.len() && s[i] == '<' ==> s[j] != '>'
}

/// No word holding a `<` comes before a word holding a `>`, and each word is
/// itself free of tags.
pub open spec fn words_tag_free(ws: Seq<Seq<char>>) -> bool {
    &&& forall|a: int| 0 <= a < ws.len() ==> tag_free(#[trigger] ws[a])
    &&& forall|a: int, b: int|
        #![trigger ws[a], ws[b]]
        0 <= a < b < ws.len() && ws[a].contains('<') ==> !ws[b].contains('>')
}

proof fn lemma_tag_free_sub(s: Seq<char>, a: int, b: int)
    requires
        tag_free(s),
        0 <= a <= b <= s.len(),
    ensures
        tag_free(s.subrange(a, b)),
{
    let t = s.subrange(a, b);
    assert forall|i: int, j: int| 0 <= i < j < t.len() && t[i] == '<' implies t[j] != '>' by {
        assert(t[i] == s[a + i] && t[j] == s[a + j]);
    }
}

proof fn lemma_tag_free_concat(x: Seq<char>, y: Seq<char>)
    requires
        tag_free(x),
        tag_free(y),
        x.contains('<') ==> !y.contains('>'),
    ensures
        tag_free(x + y),
{
    let z = x + y;
    assert forall|i: int, j: int| 0 <= i < j < z.len() && z[i] == '<' implies z[j] != '>' by {
        if j < x.len() {
            assert(z[i] == x[i] && z[j] == x[j]);
        } else if i >= x.len() {
            assert(z[i] == y[i - x.len()] && z[j] == y[j - x.len()]);
        } else {
            assert(z[i] == x[i]);
            assert(x.contains('<'));
            assert(z[j] == y[j - x.len()]);
        }
    }
}

/// What stripping leaves has no tag in it.
proof fn lemma_strip_tag_free(s: Seq<char>, pos: int)
    ensures
        tag_free(strip_from(s, pos)),
    decreases s.len() - pos,
{
    if 0 <= pos <= s.len() {
        lemma_find_char(s, '<', pos);
        match find_char(s, '<', pos) {
            None => {
                let r = s.skip(pos);
                assert forall|i: int, j: int| 0 <= i < j < r.len() && r[i] == '<' implies r[j] != '>' by {
                    assert(r[i] == s[pos + i]);
                }
            },
            Some(o) => {
                lemma_find_char(s, '>', o);
                match find_char(s, '>', o) {
                    None => {
                        let r = s.skip(pos);
                        assert forall|i: int, j: int| 0 <= i < j < r.len() && r[i] == '<' implies r[j] != '>' by {
                            assert(r[i] == s[pos + i] && r[j] == s[pos + j]);
                        }
                    },
                    Some(c) => {
                        lemma_strip_tag_free(s, c + 1);
                        let head = s.subrange(pos, o) + (if is_break_tag(tag_name(s, o, c)) {
                            seq![' ', BREAK]
                        } else {
                            seq![]
                        });
                        assert(!head.contains('<')) by {
                            if head.contains('<') {
                                let k = choose|k: int| 0 <= k < head.len() && head[k] == '<';
                                if k < o - pos {
                                    assert(head[k] == s[pos + k]);
                                }
                            }
                        }
                        assert(tag_free(head));
                        lemma_tag_free_concat(head, strip_from(s, c + 1));
                    },
                }
            },
        }
    }
}

/// Every character of every word is a character of the text.
proof fn lemma_words_chars(s: Seq<char>, c: char)
    requires
        !s.contains(c),
    ensures
        forall|b: int| 0 <= b < words(s).len() ==> !(#[trigger] words(s)[b]).contains(c),
    decreases s.len(),
{
    lemma_lead_spaces_bound(s);
    let t = s.skip(lead_spaces(s) as int);
    if !(t.len() == 0 || lead_spaces(s) > s.len() || word_len(t) == 0) {
        lemma_word_len_bound(t);
        let k = word_len(t) as int;
        let w = t.take(k);
        let r = t.skip(k);
        assert(!r.contains(c)) by {
            if r.contains(c) {
                let j = choose|j: int| 0 <= j < r.len() && r[j] == c;
                assert(s[lead_spaces(s) + k + j] == c);
            }
        }
        assert(!w.contains(c)) by {
            if w.contains(c) {
                let j = choose|j: int| 0 <= j < w.len() && w[j] == c;
                assert(s[lead_spaces(s) + j] == c);
            }
        }
        lemma_words_chars(r, c);
        assert forall|b: int| 0 <= b < words(s).len() implies !(#[trigger] words(s)[b]).contains(c) by {
            if b > 0 {
                assert(words(s)[b] == words(r)[b - 1]);
            }
        }
    }
}

/// The words of tag-free text are tag-free, in order.
proof fn lemma_words_tag_free(s: Seq<char>)
    requires
        tag_free(s),
    ensures
        words_tag_free(words(s)),
    decreases s.len(),
{
    lemma_lead_spaces_bound(s);
    let l = lead_spaces(s) as int;
    let t = s.skip(l);
    if !(t.len() == 0 || lead_spaces(s) > s.len() || word_len(t) == 0) {
        lemma_word_len_bound(t);
        let k = word_len(t) as int;
        let w = t.take(k);
        let r = t.skip(k);
        lemma_tag_free_sub(s, l, l + k);
        assert(w =~= s.subrange(l, l + k));
        lemma_tag_free_sub(s, l + k, s.len() as int);
        assert(r =~= s.subrange(l + k, s.len() as int));
        lemma_words_tag_free(r);
        if w.contains('<') {
            let i = choose|i: int| 0 <= i < w.len() && w[i] == '<';
            assert(!r.contains('>')) by {
                if r.contains('>') {
                    let j = choose|j: int| 0 <= j < r.len() && r[j] == '>';
                    assert(s[l + i] == '<' && s[l + k + j] == '>');
                }
            }
            lemma_words_chars(r, '>');
        }
        let ws = words(s);
        assert(ws == seq![w] + words(r));
        assert forall|a: int| 0 <= a < ws.len() implies tag_free(#[trigger] ws[a]) by {
            if a > 0 {
                assert(ws[a] == words(r)[a - 1]);
            }
        }
        assert forall|a: int, b: int| 0 <= a < b < ws.len() && ws[a].contains('<') implies !ws[b].contains('>') by {
            assert(ws[b] == words(r)[b - 1]);
            if a > 0 {
                assert(ws[a] == words(r)[a - 1]);
            }
        }
    }
}

/// The characters of joined words other than the spaces are the words'.
proof fn lemma_join_chars(ws: Seq<Seq<char>>, c: char)
    requires
        c != ' ',
        join(ws).contains(c),
    ensures
        exists|a: int| 0 <= a < ws.len() && (#[trigger] ws[a]).contains(c),
    decreases ws.len(),
{
    if ws.len() == 1 {
        assert(ws[0].contains(c));
    } else if ws.len() > 1 {
        let init = ws.drop_last();
        let x = join(init).push(' ');
        let k = choose|k: int| 0 <= k < join(ws).len() && join(ws)[k] == c;
        if k < join(init).len() {
            assert(join(ws)[k] == join(init)[k]);
            lemma_join_chars(init, c);
            let a = choose|a: int| 0 <= a < init.len() && (#[trigger] init[a]).contains(c);
            assert(ws[a] == init[a]);
        } else if k > join(init).len() {
            assert(join(ws)[k] == ws.last()[k - x.len()]);
            assert(ws[ws.len() - 1].contains(c));
        }
    }
}

/// Tag-free words join into tag-free text.
proof fn lemma_join_tag_free(ws: Seq<Seq<char>>)
    requires
        words_tag_free(ws),
    ensures
        tag_free(join(ws)),
    decreases ws.len(),
{
    if ws.len() == 1 {
        assert(tag_free(ws[0]));
    } else if ws.len() > 1 {
        let init = ws.drop_last();
        assert(words_tag_free(init)) by {
            assert forall|a: int| 0 <= a < init.len() implies tag_free(#[trigger] init[a]) by {
                assert(init[a] == ws[a]);
            }
            assert forall|a: int, b: int| 0 <= a < b < init.len() && init[a].contains('<') implies !init[b].contains('>') by {
                assert(init[a] == ws[a] && init[b] == ws[b]);
            }
        }
        lemma_join_tag_free(init);
        let x = join(init).push(' ');
        lemma_tag_free_concat(join(init), seq![' ']);
        assert(join(init) + seq![' '] =~= x);
        assert(tag_free(ws.last()));
        if x.contains('<') {
            let k = choose|k: int| 0 <= k < x.len() && x[k] == '<';
            assert(k < join(init).len());
            assert(join(init)[k] == '<');
            assert(join(init).contains('<'));
            lemma_join_chars(init, '<');
            let a = choose|a: int| 0 <= a < init.len() && (#[trigger] init[a]).contains('<');
            assert(ws[a] == init[a]);
            assert(ws[ws.len() - 1] == ws.last());
        }
        lemma_tag_free_concat(x, ws.last());
    }
}

proof fn lemma_strip_of_tag_free(s: Seq<char>)
    requires
        tag_free(s),
    ensures
        strip_from(s, 0) == s,
{
    assert(s.skip(0) =~= s);
    lemma_find_char(s, '<', 0);
    match find_char(s, '<', 0) {
        None => {},
        Some(o) => {
            lemma_find_char(s, '>', o);
            match find_char(s, '>', o) {
                None => {},
                Some(c) => {
                    assert(s[o] == '<' && s[c] == '>');
                    assert(false);
                },
            }
        },
    }
}

/// How many words `pick` takes.
pub open spec fn pick_taken(ws: Seq<Seq<char>>, out: Seq<char>) -> nat
    decreases ws.len(),
{
    if ws.len() == 0 {
        0
    } else {
        let w = ws[0];
        let sep: int = if out.len() > 0 {
            1
        } else {
            0
        };
        if w.len() > 0 && w[0] == BREAK {
            0
        } else if out.len() + w.len() + sep > EXCERPT_MAX {
            0
        } else {
            let next = if out.len() > 0 {
                out.push(' ') + w
            } else {
                w
            };
            if ends_sentence(w) {
                1
            } else {
                1 + pick_taken(ws.skip(1), next)
            }
        }
    }
}

proof fn lemma_join_empty(us: Seq<Seq<char>>)
    requires
        all_words(us),
    ensures
        join(us).len() == 0 <==> us.len() == 0,
    decreases us.len(),
{
    if us.len() == 1 {
        assert(is_word(us[0]));
    }
}

proof fn lemma_join_push(us: Seq<Seq<char>>, w: Seq<char>)
    requires
        all_words(us),
    ensures
        join(us.push(w)) == if join(us).len() > 0 {
            join(us).push(' ') + w
        } else {
            w
        },
{
    lemma_join_empty(us);
    assert(us.push(w).drop_last() =~= us);
    if us.len() == 0 {
        assert(us.push(w) =~= seq![w]);
    }
}

proof fn lemma_all_words_push(us: Seq<Seq<char>>, w: Seq<char>)
    requires
        all_words(us),
        is_word(w),
    ensures
        all_words(us.push(w)),
{
    assert forall|i: int| 0 <= i < us.push(w).len() implies is_word(#[trigger] us.push(w)[i]) by {
        if i < us.len() {
            assert(us.push(w)[i] == us[i]);
        }
    }
}

/// What `pick` takes: the first words, joined, none of them a break, none but
/// the last ending a sentence, and none at all when something was left out.
proof fn lemma_pick_shape(ws: Seq<Seq<char>>, us: Seq<Seq<char>>)
    requires
        all_words(ws),
        all_words(us),
    ensures
        pick_taken(ws, join(us)) <= ws.len(),
        pick(ws, join(us)).0 == join(us + ws.take(pick_taken(ws, join(us)) as int)),
        forall|k: int|
            0 <= k < pick_taken(ws, join(us)) ==> !((#[trigger] ws[k]).len() > 0 && ws[k][0] == BREAK),
        forall|k: int| 0 <= k < pick_taken(ws, join(us)) - 1 ==> !ends_sentence(#[trigger] ws[k]),
        pick(ws, join(us)).1 ==> forall|k: int|
            0 <= k < pick_taken(ws, join(us)) ==> !ends_sentence(#[trigger] ws[k]),
    decreases ws.len(),
{
    let out = join(us);
    if ws.len() == 0 {
        assert(us + ws.take(0) =~= us);
    } else {
        let w = ws[0];
        let sep: int = if out.len() > 0 {
            1
        } else {
            0
        };
        if (w.len() > 0 && w[0] == BREAK) || out.len() + w.len() + sep > EXCERPT_MAX {
            assert(us + ws.take(0) =~= us);
        } else {
            assert(is_word(w));
            lemma_join_push(us, w);
            let us2 = us.push(w);
            lemma_all_words_push(us, w);
            if ends_sentence(w) {
                assert(us + ws.take(1) =~= us2);
            } else {
                let rest = ws.skip(1);
                assert(all_words(rest)) by {
                    assert forall|i: int| 0 <= i < rest.len() implies is_word(#[trigger] rest[i]) by {
                        assert(rest[i] == ws[i + 1]);
                    }
                }
                lemma_pick_shape(rest, us2);
                let m2 = pick_taken(rest, join(us2));
                assert(us2 + rest.take(m2 as int) =~= us + ws.take(1 + m2 as int));
                assert forall|k: int| 0 <= k < 1 + m2 implies !((#[trigger] ws[k]).len() > 0 && ws[k][0] == BREAK) by {
                    if k > 0 {
                        assert(ws[k] == rest[k - 1]);
                    }
                }
                assert forall|k: int| 0 <= k < 1 + m2 - 1 implies !ends_sentence(#[trigger] ws[k]) by {
                    if k > 0 {
                        assert(ws[k] == rest[k - 1]);
                    }
                }
                if pick(ws, out).1 {
                    assert forall|k: int| 0 <= k < 1 + m2 implies !ends_sentence(#[trigger] ws[k]) by {
                        if k > 0 {
                            assert(ws[k] == rest[k - 1]);
                        }
                    }
                }
            }
        }
    }
}

proof fn lemma_join_grows(a: Seq<Seq<char>>, b: Seq<Seq<char>>)
    requires
        all_words(a),
        all_words(b),
    ensures
        join(a).len() <= join(a + b).len(),
    decreases b.len(),
{
    if b.len() > 0 {
        let b2 = b.drop_last();
        assert(all_words(b2)) by {
            assert forall|i: int| 0 <= i < b2.len() implies is_word(#[trigger] b2[i]) by {
                assert(b2[i] == b[i]);
            }
        }
        lemma_join_grows(a, b2);
        assert((a + b).drop_last() =~= a + b2);
        assert(all_words(a + b2)) by {
            assert forall|i: int| 0 <= i < (a + b2).len() implies is_word(#[trigger] (a + b2)[i]) by {
                if i < a.len() {
                    assert((a + b2)[i] == a[i]);
                } else {
                    assert((a + b2)[i] == b2[i - a.len()]);
                }
            }
        }
        lemma_join_push(a + b2, b.last());
        assert(a + b =~= (a + b2).push(b.last()));
    }
}

/// Words that are no breaks, none but the last ending a sentence, and short
/// enough together, are all taken, and nothing is left out.
proof fn lemma_pick_takes_all(ws: Seq<Seq<char>>, us: Seq<Seq<char>>)
    requires
        all_words(ws),
        all_words(us),
        forall|k: int| 0 <= k < ws.len() ==> !((#[trigger] ws[k]).len() > 0 && ws[k][0] == BREAK),
        forall|k: int| 0 <= k < ws.len() - 1 ==> !ends_sentence(#[trigger] ws[k]),
        join(us + ws).len() <= EXCERPT_MAX,
    ensures
        pick(ws, join(us)) == (join(us + ws), false),
    decreases ws.len(),
{
    if ws.len() == 0 {
        assert(us + ws =~= us);
    } else {
        let w = ws[0];
        assert(is_word(w));
        lemma_join_push(us, w);
        lemma_all_words_push(us, w);
        let us2 = us.push(w);
        let rest = ws.skip(1);
        assert(all_words(rest)) by {
            assert forall|i: int| 0 <= i < rest.len() implies is_word(#[trigger] rest[i]) by {
                assert(rest[i] == ws[i + 1]);
            }
        }
        assert(us + ws =~= us2 + rest);
        lemma_join_grows(us2, rest);
        lemma_join_empty(us);
        if ends_sentence(w) {
            assert(rest.len() == 0) by {
                if rest.len() > 0 {
                    assert(!ends_sentence(ws[0]));
                }
            }
            assert(us2 + rest =~= us2);
        } else {
            assert forall|k: int| 0 <= k < rest.len() implies !((#[trigger] rest[k]).len() > 0 && rest[k][0] == BREAK) by {
                assert(rest[k] == ws[k + 1]);
            }
            assert forall|k: int| 0 <= k < rest.len() - 1 implies !ends_sentence(#[trigger] rest[k]) by {
                assert(rest[k] == ws[k + 1]);
            }
            lemma_pick_takes_all(rest, us2);
        }
    }
}

/// The first `m` words keep being words, tag-free in order.
proof fn lemma_take_words(ws: Seq<Seq<char>>, m: int)
    requires
        all_words(ws),
        words_tag_free(ws),
        0 <= m <= ws.len(),
    ensures
        all_words(ws.take(m)),
        words_tag_free(ws.take(m)),
{
    let t = ws.take(m);
    assert forall|i: int| 0 <= i < t.len() implies is_word(#[trigger] t[i]) by {
        assert(t[i] == ws[i]);
    }
    assert forall|a: int| 0 <= a < t.len() implies tag_free(#[trigger] t[a]) by {
        assert(t[a] == ws[a]);
    }
    assert forall|a: int, b: int| 0 <= a < b < t.len() && t[a].contains('<') implies !t[b].contains('>') by {
        assert(t[a] == ws[a] && t[b] == ws[b]);
    }
}

/// The ellipsis on the last word is the ellipsis after the joined words.
proof fn lemma_join_mark_last(t: Seq<Seq<char>>, mark: char)
    requires
        t.len() > 0,
    ensures
        join(t.update(t.len() - 1, t.last().push(mark))) == join(t).push(mark),
{
    let u = t.update(t.len() - 1, t.last().push(mark));
    if t.len() > 1 {
        assert(u.drop_last() =~= t.drop_last());
    }
}

/// Tag-free text whose words are taken whole, with nothing left out, is its
/// own excerpt.
proof fn lemma_excerpt_of_joined(t: Seq<Seq<char>>)
    requires
        all_words(t),
        words_tag_free(t),
        forall|k: int| 0 <= k < t.len() ==> !((#[trigger] t[k]).len() > 0 && t[k][0] == BREAK),
        forall|k: int| 0 <= k < t.len() - 1 ==> !ends_sentence(#[trigger] t[k]),
        join(t).len() <= EXCERPT_MAX,
    ensures
        excerpt_spec(join(t)) == join(t),
{
    let e = join(t);
    lemma_join_tag_free(t);
    lemma_strip_of_tag_free(e);
    lemma_words_of_join(t);
    let none: Seq<Seq<char>> = seq![];
    assert(none + t =~= t);
    assert(join(none) == Seq::<char>::empty());
    lemma_pick_takes_all(t, none);
}

/// An excerpt is its own excerpt, where it is no longer than `EXCERPT_MAX`:
/// what is already plain, collapsed and cut is left as it is.
pub proof fn lemma_excerpt_is_its_own_excerpt(body: Seq<char>)
    requires
        excerpt_spec(body).len() <= EXCERPT_MAX,
    ensures
        excerpt_spec(excerpt_spec(body)) == excerpt_spec(body),
{
    let s = strip_from(body, 0);
    let ws = words(s);
    lemma_words_are_words(s);
    lemma_strip_tag_free(body, 0);
    lemma_words_tag_free(s);
    let none: Seq<Seq<char>> = seq![];
    assert(join(none) == Seq::<char>::empty());
    lemma_pick_shape(ws, none);
    let m = pick_taken(ws, seq![]) as int;
    let t = ws.take(m);
    assert(none + t =~= t);
    lemma_take_words(ws, m);
    let (out, cut) = pick(ws, seq![]);
    assert(out == join(t));
    assert forall|k: int| 0 <= k < t.len() implies !((#[trigger] t[k]).len() > 0 && t[k][0] == BREAK) by {
        assert(t[k] == ws[k]);
    }
    assert forall|k: int| 0 <= k < t.len() - 1 implies !ends_sentence(#[trigger] t[k]) by {
        assert(t[k] == ws[k]);
    }
    if !cut {
        lemma_excerpt_of_joined(t);
    } else if m == 0 {
        let u: Seq<Seq<char>> = seq![seq!['\u{2026}']];
        assert(join(t) == Seq::<char>::empty());
        assert(excerpt_spec(body) =~= u[0]);
        assert(is_space('\u{2026}') == false);
        assert(all_words(u));
        assert(tag_free(u[0]));
        assert(words_tag_free(u));
        assert(join(u) == u[0]);
        lemma_excerpt_of_joined(u);
    } else {
        let w = t.last();
        let w2 = w.push('\u{2026}');
        let u = t.update(m - 1, w2);
        lemma_join_mark_last(t, '\u{2026}');
        assert(t[m - 1] == ws[m - 1]);
        assert(!ends_sentence(w));
        assert(is_word(w));
        assert(is_word(w2)) by {
            assert forall|k: int| 0 <= k < w2.len() implies !is_space(#[trigger] w2[k]) by {
                if k < w.len() {
                    assert(w2[k] == w[k]);
                }
            }
        }
        assert(all_words(u)) by {
            assert forall|i: int| 0 <= i < u.len() implies is_word(#[trigger] u[i]) by {
                if i != m - 1 {
                    assert(u[i] == t[i]);
                }
            }
        }
        assert(w2.contains('<') == w.contains('<')) by {
            if w2.contains('<') {
                let k = choose|k: int| 0 <= k < w2.len() && w2[k] == '<';
                assert(w[k] == '<');
            }
            if w.contains('<') {
                let k = choose|k: int| 0 <= k < w.len() && w[k] == '<';
                assert(w2[k] == '<');
            }
        }
        assert(w2.contains('>') == w.contains('>')) by {
            if w2.contains('>') {
                let k = choose|k: int| 0 <= k < w2.len() && w2[k] == '>';
                assert(w[k] == '>');
            }
            if w.contains('>') {
                let k = choose|k: int| 0 <= k < w.len() && w[k] == '>';
                assert(w2[k] == '>');
            }
        }
        assert(tag_free(w2)) by {
            assert(tag_free(w));
            assert forall|i: int, j: int| 0 <= i < j < w2.len() && w2[i] == '<' implies w2[j] != '>' by {
                assert(w2[i] == w[i]);
                if j < w.len() {
                    assert(w2[j] == w[j]);
                }
            }
        }
        assert(words_tag_free(u)) by {
            assert forall|a: int| 0 <= a < u.len() implies tag_free(#[trigger] u[a]) by {
                if a != m - 1 {
                    assert(u[a] == t[a]);
                }
            }
            assert forall|a: int, b: int| 0 <= a < b < u.len() && u[a].contains('<') implies !u[b].contains('>') by {
                assert(u[a] == t[a]);
                if b != m - 1 {
                    assert(u[b] == t[b]);
                }
            }
        }
        assert forall|k: int| 0 <= k < u.len() implies !((#[trigger] u[k]).len() > 0 && u[k][0] == BREAK) by {
            if k != m - 1 {
                assert(u[k] == t[k]);
            } else {
                assert(w.len() > 0 && w2[0] == w[0]);
            }
        }
        assert forall|k: int| 0 <= k < u.len() - 1 implies !ends_sentence(#[trigger] u[k]) by {
            assert(u[k] == t[k]);
        }
        lemma_excerpt_of_joined(u);
    }
}

/// `pick` stops after the first word that ends a sentence, taking it and the
/// words before it, when they fit.
proof fn lemma_pick_stops_at_sentence(ws: Seq<Seq<char>>, us: Seq<Seq<char>>, i: int)
    requires
        all_words(ws),
        all_words(us),
        0 <= i < ws.len(),
        forall|k: int| 0 <= k <= i ==> (#[trigger] ws[k])[0] != BREAK,
        forall|k: int| 0 <= k < i ==> !ends_sentence(#[trigger] ws[k]),
        ends_sentence(ws[i]),
        join(us + ws.take(i + 1)).len() <= EXCERPT_MAX,
    ensures
        pick(ws, join(us)) == (join(us + ws.take(i + 1)), false),
    decreases ws.len(),
{
    let w = ws[0];
    assert(is_word(w));
    lemma_join_push(us, w);
    lemma_all_words_push(us, w);
    let us2 = us.push(w);
    let rest = ws.skip(1);
    assert(all_words(rest)) by {
        assert forall|k: int| 0 <= k < rest.len() implies is_word(#[trigger] rest[k]) by {
            assert(rest[k] == ws[k + 1]);
        }
    }
    let tail = rest.take(i);
    assert(all_words(tail)) by {
        assert forall|k: int| 0 <= k < tail.len() implies is_word(#[trigger] tail[k]) by {
            assert(tail[k] == ws[k + 1]);
        }
    }
    assert(us + ws.take(i + 1) =~= us2 + tail);
    lemma_join_grows(us2, tail);
    lemma_join_empty(us);
    if i == 0 {
        assert(us2 + tail =~= us2);
    } else {
        assert(!ends_sentence(ws[0]));
        assert forall|k: int| 0 <= k <= i - 1 implies (#[trigger] rest[k])[0] != BREAK by {
            assert(rest[k] == ws[k + 1]);
        }
        assert forall|k: int| 0 <= k < i - 1 implies !ends_sentence(#[trigger] rest[k]) by {
            assert(rest[k] == ws[k + 1]);
        }
        assert(rest[i - 1] == ws[i]);
        assert(rest.take(i - 1 + 1) =~= tail);
        lemma_pick_stops_at_sentence(rest, us2, i - 1);
    }
}

/// A tooltip shows the first sentence. In a body with no tags and no break
/// marks, when the `i`-th word is the first to end in `.`, `!` or `?` and
/// the words up to it fit in `EXCERPT_MAX` characters, the excerpt is
/// exactly those words, joined by single spaces, and nothing more.
pub proof fn lemma_excerpt_is_the_first_sentence(body: Seq<char>, i: int)
    requires
        tag_free(body),
        !body.contains(BREAK),
        0 <= i < words(body).len(),
        forall|k: int|
            0 <= k < i ==> {
                let w = #[trigger] words(body)[k];
                w.last() != '.' && w.last() != '!' && w.last() != '?'
            },
        words(body)[i].last() == '.' || words(body)[i].last() == '!' || words(body)[i].last()
            == '?',
        join(words(body).take(i + 1)).len() <= EXCERPT_MAX,
    ensures
        excerpt_spec(body) == join(words(body).take(i + 1)),
{
    let ws = words(body);
    lemma_strip_of_tag_free(body);
    lemma_words_are_words(body);
    lemma_words_chars(body, BREAK);
    assert forall|k: int| 0 <= k <= i implies (#[trigger] ws[k])[0] != BREAK by {
        assert(is_word(ws[k]));
        assert(!ws[k].contains(BREAK));
    }
    assert forall|k: int| 0 <= k < i implies !ends_sentence(#[trigger] ws[k]) by {
        assert(is_word(ws[k]));
    }
    assert(is_word(ws[i]));
    let none: Seq<Seq<char>> = seq![];
    assert(join(none) == Seq::<char>::empty());
    assert(none + ws.take(i + 1) =~= ws.take(i + 1));
    lemma_pick_stops_at_sentence(ws, none, i);
}

/// `pick` stops before the first word that no longer fits, and says that
/// something was left out.
proof fn lemma_pick_cuts(ws: Seq<Seq<char>>, us: Seq<Seq<char>>, i: int)
    requires
        all_words(ws),
        all_words(us),
        0 <= i < ws.len(),
        forall|k: int| 0 <= k <= i ==> (#[trigger] ws[k])[0] != BREAK,
        forall|k: int| 0 <= k < i ==> !ends_sentence(#[trigger] ws[k]),
        join(us + ws.take(i)).len() <= EXCERPT_MAX,
        join(us + ws.take(i + 1)).len() > EXCERPT_MAX,
    ensures
        pick(ws, join(us)) == (join(us + ws.take(i)), true),
    decreases ws.len(),
{
    let w = ws[0];
    assert(is_word(w));
    lemma_join_push(us, w);
    lemma_all_words_push(us, w);
    lemma_join_empty(us);
    let us2 = us.push(w);
    let rest = ws.skip(1);
    assert(all_words(rest)) by {
        assert forall|k: int| 0 <= k < rest.len() implies is_word(#[trigger] rest[k]) by {
            assert(rest[k] == ws[k + 1]);
        }
    }
    if i == 0 {
        assert(us + ws.take(0) =~= us);
        assert(us + ws.take(1) =~= us2);
    } else {
        let tail = rest.take(i - 1);
        assert(all_words(tail)) by {
            assert forall|k: int| 0 <= k < tail.len() implies is_word(#[trigger] tail[k]) by {
                assert(tail[k] == ws[k + 1]);
            }
        }
        assert(us + ws.take(i) =~= us2 + tail);
        assert(us + ws.take(i + 1) =~= us2 + rest.take(i));
        lemma_join_grows(us2, tail);
        assert(!ends_sentence(ws[0]));
        assert forall|k: int| 0 <= k <= i - 1 implies (#[trigger] rest[k])[0] != BREAK by {
            assert(rest[k] == ws[k + 1]);
        }
        assert forall|k: int| 0 <= k < i - 1 implies !ends_sentence(#[trigger] rest[k]) by {
            assert(rest[k] == ws[k + 1]);
        }
        assert(rest.take(i - 1 + 1) =~= rest.take(i));
        lemma_pick_cuts(rest, us2, i - 1);
    }
}

/// A tooltip that cannot hold the first sentence is cut with an ellipsis.
/// In a body with no tags and no break marks, when no sentence ends among
/// the first `i` words, those words fit in `EXCERPT_MAX` characters and one
/// more word would not, the excerpt is exactly those words, joined by single
/// spaces, followed by `…`.
pub proof fn lemma_excerpt_cuts_what_does_not_fit(body: Seq<char>, i: int)
    requires
        tag_free(body),
        !body.contains(BREAK),
        0 <= i < words(body).len(),
        forall|k: int|
            0 <= k < i ==> {
                let w = #[trigger] words(body)[k];
                w.last() != '.' && w.last() != '!' && w.last() != '?'
            },
        join(words(body).take(i)).len() <= EXCERPT_MAX,
        join(words(body).take(i + 1)).len() > EXCERPT_MAX,
    ensures
        excerpt_spec(body) == join(words(body).take(i)).push('\u{2026}'),
{
    let ws = words(body);
    lemma_strip_of_tag_free(body);
    lemma_words_are_words(body);
    lemma_words_chars(body, BREAK);
    assert forall|k: int| 0 <= k <= i implies (#[trigger] ws[k])[0] != BREAK by {
        assert(is_word(ws[k]));
        assert(!ws[k].contains(BREAK));
    }
    assert forall|k: int| 0 <= k < i implies !ends_sentence(#[trigger] ws[k]) by {
        assert(is_word(ws[k]));
    }
    let none: Seq<Seq<char>> = seq![];
    assert(join(none) == Seq::<char>::empty());
    assert(none + ws.take(i) =~= ws.take(i));
    assert(none + ws.take(i + 1) =~= ws.take(i + 1));
    lemma_pick_cuts(ws, none, i);
}

proof fn lemma_lead_spaces_concat(p: Seq<char>, y: Seq<char>)
    requires
        forall|k: int| 0 <= k < p.len() ==> is_space(#[trigger] p[k]),
    ensures
        lead_spaces(p + y) == p.len() + lead_spaces(y),
    decreases p.len(),
{
    if p.len() == 0 {
        assert(p + y =~= y);
    } else {
        assert((p + y)[0] == p[0]);
        assert((p + y).drop_first() =~= p.drop_first() + y);
        assert forall|k: int| 0 <= k < p.drop_first().len() implies is_space(#[trigger] p.drop_first()[k]) by {
            assert(p.drop_first()[k] == p[k + 1]);
        }
        lemma_lead_spaces_concat(p.drop_first(), y);
    }
}

/// Spaces before text do not change its words.
proof fn lemma_words_after_spaces(p: Seq<char>, y: Seq<char>)
    requires
        forall|k: int| 0 <= k < p.len() ==> is_space(#[trigger] p[k]),
    ensures
        words(p + y) == words(y),
{
    lemma_lead_spaces_concat(p, y);
    lemma_lead_spaces_bound(y);
    assert((p + y).skip(lead_spaces(p + y) as int) =~= y.skip(lead_spaces(y) as int));
}

/// A space splits the words: those before it, then those after it.
proof fn lemma_words_split(a: Seq<char>, y: Seq<char>)
    ensures
        words(a.push(' ') + y) == words(a) + words(y),
    decreases a.len(),
{
    let x = a.push(' ') + y;
    lemma_lead_spaces_bound(a);
    let l = lead_spaces(a) as int;
    if l == a.len() {
        let p = a.push(' ');
        assert forall|k: int| 0 <= k < p.len() implies is_space(#[trigger] p[k]) by {
            if k < a.len() {
                lemma_all_lead(a, k);
                assert(p[k] == a[k]);
            }
        }
        lemma_words_after_spaces(p, y);
        lemma_words_all_spaces(a);
        assert(words(a) + words(y) =~= words(y));
    } else {
        assert forall|k: int| 0 <= k < l implies is_space(#[trigger] a[k]) by {
            lemma_all_lead(a, k);
        }
        assert forall|k: int| 0 <= k < l implies is_space(#[trigger] x[k]) by {
            assert(x[k] == a[k]);
        }
        lemma_lead_spaces(x, l);
        lemma_lead_spaces(a, l);
        let ta = a.skip(l);
        let t = x.skip(l);
        assert(t =~= ta.push(' ') + y);
        assert(lead_spaces(ta) == 0) by {
            assert(ta[0] == a[l]);
        }
        assert(lead_spaces(t) == 0) by {
            assert(t[0] == a[l]);
        }
        lemma_word_len_bound(ta);
        let kk = word_len(ta) as int;
        lemma_word_len_prefix(ta);
        assert(kk > 0) by {
            assert(!is_space(ta[0]));
        }
        assert forall|k: int| 0 <= k < kk implies !is_space(#[trigger] t[k]) by {
            assert(t[k] == ta[k]);
        }
        lemma_word_len(t, kk);
        assert(word_len(t.skip(kk)) == 0) by {
            if kk < ta.len() {
                assert(t.skip(kk)[0] == ta[kk]);
            } else {
                assert(t.skip(kk)[0] == ' ');
            }
        }
        assert(word_len(t) == kk);
        lemma_word_len(ta, kk);
        let a2 = ta.skip(kk);
        assert(t.skip(kk) =~= a2.push(' ') + y);
        assert(t.take(kk) =~= ta.take(kk));
        lemma_words_split(a2, y);
        assert(words(x) == seq![ta.take(kk)] + words(a2.push(' ') + y));
        assert(words(a) == seq![ta.take(kk)] + words(a2));
        assert(words(x) =~= words(a) + words(y));
    }
}

/// Words that are all taken, then a break: what was taken is the excerpt,
/// cut when it holds anything.
proof fn lemma_pick_to_break(ws: Seq<Seq<char>>, rest: Seq<Seq<char>>, us: Seq<Seq<char>>)
    requires
        all_words(ws),
        all_words(us),
        forall|k: int| 0 <= k < ws.len() ==> (#[trigger] ws[k])[0] != BREAK,
        forall|k: int| 0 <= k < ws.len() ==> !ends_sentence(#[trigger] ws[k]),
        join(us + ws).len() <= EXCERPT_MAX,
        rest.len() > 0,
        rest[0].len() > 0,
        rest[0][0] == BREAK,
    ensures
        pick(ws + rest, join(us)) == (join(us + ws), join(us + ws).len() > 0),
    decreases ws.len(),
{
    if ws.len() == 0 {
        assert(ws + rest =~= rest);
        assert(us + ws =~= us);
    } else {
        let w = ws[0];
        assert(is_word(w));
        lemma_join_push(us, w);
        lemma_all_words_push(us, w);
        lemma_join_empty(us);
        let us2 = us.push(w);
        let tail = ws.skip(1);
        assert(all_words(tail)) by {
            assert forall|k: int| 0 <= k < tail.len() implies is_word(#[trigger] tail[k]) by {
                assert(tail[k] == ws[k + 1]);
            }
        }
        assert(us + ws =~= us2 + tail);
        lemma_join_grows(us2, tail);
        assert((ws + rest)[0] == w);
        assert((ws + rest).skip(1) =~= tail + rest);
        assert forall|k: int| 0 <= k < tail.len() implies (#[trigger] tail[k])[0] != BREAK by {
            assert(tail[k] == ws[k + 1]);
        }
        assert forall|k: int| 0 <= k < tail.len() implies !ends_sentence(#[trigger] tail[k]) by {
            assert(tail[k] == ws[k + 1]);
        }
        lemma_pick_to_break(tail, rest, us2);
    }
}

/// A break in the markup ends the excerpt as a sentence end would: after
/// plain text with no sentence end that fits in `EXCERPT_MAX` characters, a
/// `<br>`, `<br/>`, `<p>`, `</p>` or `<li>` leaves out all that follows. The
/// excerpt is the words before it, joined by single spaces, with `…`, or
/// nothing when there were none.
pub proof fn lemma_break_tag_ends_the_excerpt(a: Seq<char>, n: Seq<char>, r: Seq<char>)
    requires
        forall|k: int| 0 <= k < a.len() ==> a[k] != '<' && a[k] != BREAK,
        n == "br"@ || n == "br/"@ || n == "p"@ || n == "/p"@ || n == "li"@,
        forall|k: int|
            0 <= k < words(a).len() ==> {
                let w = #[trigger] words(a)[k];
                w.last() != '.' && w.last() != '!' && w.last() != '?'
            },
        join(words(a)).len() <= EXCERPT_MAX,
    ensures
        excerpt_spec(a + "<"@ + n + ">"@ + r) == if words(a).len() == 0 {
            Seq::<char>::empty()
        } else {
            join(words(a)).push('\u{2026}')
        },
{
    reveal_strlit("<");
    reveal_strlit(">");
    reveal_strlit("br");
    reveal_strlit("br/");
    reveal_strlit("p");
    reveal_strlit("/p");
    reveal_strlit("li");
    let body = a + "<"@ + n + ">"@ + r;
    let o = a.len() as int;
    let c = o + 1 + n.len();
    assert(body[o] == '<');
    assert(body[c] == '>');
    assert forall|k: int| 0 <= k < o implies body[k] != '<' by {
        assert(body[k] == a[k]);
    }
    lemma_find_char(body, '<', 0);
    assert forall|k: int| o <= k < c implies body[k] != '>' by {
        if k > o {
            assert(body[k] == n[k - o - 1]);
        }
    }
    lemma_find_char(body, '>', o);
    assert(body.subrange(o + 1, c) =~= n);
    assert forall|k: int| 0 <= k < n.len() implies !is_space(#[trigger] n[k]) && !('A' <= n[k] && n[k] <= 'Z') by {}
    crate::text::lemma_trim_clean(n);
    assert(lower(n) =~= n);
    assert(tag_name(body, o, c) == n);
    assert(is_break_tag(n)) by {
        assert(n.subrange(0, n.len() as int) =~= n);
        if n == "br/"@ {
            assert(n.subrange(0, 2) =~= "br"@);
        }
    }
    let rr = strip_from(body, c + 1);
    assert(body.skip(0) =~= body);
    assert(body.subrange(0, o) =~= a);
    let s = strip_from(body, 0);
    assert(s == a + seq![' ', BREAK] + rr);
    let y = seq![BREAK] + rr;
    assert(s =~= a.push(' ') + y);
    lemma_words_split(a, y);
    assert(!is_space(BREAK));
    assert(lead_spaces(y) == 0);
    assert(y.skip(0) =~= y);
    lemma_word_len_bound(y);
    assert(word_len(y) >= 1);
    let wa = words(a);
    let wy = words(y);
    assert(wy.len() > 0 && wy[0] == y.take(word_len(y) as int));
    assert(wy[0][0] == BREAK);
    lemma_words_are_words(a);
    assert forall|k: int| 0 <= k < wa.len() implies (#[trigger] wa[k])[0] != BREAK by {
        assert(is_word(wa[k]));
        assert(!a.contains(BREAK));
        lemma_words_chars(a, BREAK);
        assert(!wa[k].contains(BREAK));
    }
    assert forall|k: int| 0 <= k < wa.len() implies !ends_sentence(#[trigger] wa[k]) by {
        assert(is_word(wa[k]));
    }
    let none: Seq<Seq<char>> = seq![];
    assert(join(none) == Seq::<char>::empty());
    assert(none + wa =~= wa);
    lemma_words_are_words(y);
    lemma_pick_to_break(wa, wy, none);
    lemma_join_empty(wa);
}

/// Which help is open: at most one card, by its help's id, and the overlay a
/// trigger asked for, which the caller shows.
pub struct HelpCards {
    pub open: Option<u64>,
    /// A click this frame landed on a help trigger or on the open card.
    pub claimed: bool,
    pub requested: Option<crate::panels::Overlay>,
}

impl HelpCards {
    pub fn new() -> (h: HelpCards)
        ensures
            h.open is None,
            !h.claimed,
            h.requested is None,
    {
        HelpCards { open: None, claimed: false, requested: None }
    }

    /// Whether the card of `id` is the open one.
    pub fn is_open(&self, id: u64) -> (r: bool)
        ensures
            r == (self.open == Some(id)),
    {
        match self.open {
            Some(o) => o == id,
            None => false,
        }
    }

    /// The trigger of the card `id`, whose help says `text`, clicked or not
    /// this frame. A help with nothing to say (no translation, an empty
    /// description) has no trigger. A click takes the click for help and
    /// toggles the card: it closes an open card of its own, and otherwise
    /// opens, closing whichever card was open before.
    pub fn trigger(&mut self, id: u64, text: &str, clicked: bool)
        ensures
            trim(text@).len() == 0 || !clicked ==> final(self).open == old(self).open && final(self).claimed
                == old(self).claimed,
            trim(text@).len() > 0 && clicked ==> {
                &&& final(self).claimed
                &&& final(self).open == if old(self).open == Some(id) {
                    None
                } else {
                    Some(id)
                }
            },
            final(self).requested == old(self).requested,
    {
        let t = crate::text::trim_exec(text);
        if t.len() == 0 || !clicked {
            return;
        }
        self.claimed = true;
        if self.is_open(id) {
            self.open = None;
        } else {
            self.open = Some(id);
        }
    }

    /// A click on the open card, which keeps it open.
    pub fn card_clicked(&mut self)
        ensures
            final(self).claimed,
            final(self).open == old(self).open,
            final(self).requested == old(self).requested,
    {
        self.claimed = true;
    }

    /// Ask for the centred overlay: any open card closes.
    pub fn open_overlay(&mut self, overlay: crate::panels::Overlay)
        ensures
            final(self).open is None,
            final(self).requested == Some(overlay),
            final(self).claimed == old(self).claimed,
    {
        self.open = None;
        self.requested = Some(overlay);
    }

    /// The trigger of a panel's overlay, clicked or not this frame.
    pub fn overlay_trigger(&mut self, clicked: bool, overlay: crate::panels::Overlay)
        ensures
            clicked ==> final(self).claimed && final(self).open is None && final(self).requested
                == Some(overlay),
            !clicked ==> final(self).open == old(self).open && final(self).claimed == old(self).claimed
                && final(self).requested == old(self).requested,
    {
        if clicked {
            self.claimed = true;
            self.open_overlay(overlay);
        }
    }

    /// Close whatever card is open.
    pub fn close(&mut self)
        ensures
            final(self).open is None,
            final(self).claimed == old(self).claimed,
            final(self).requested == old(self).requested,
    {
        self.open = None;
    }

    /// The end of a frame: a click that no trigger and no card took closes
    /// the card; the next frame starts unclaimed.
    pub fn end_frame(&mut self, any_click: bool)
        ensures
            !final(self).claimed,
            final(self).open == if any_click && !old(self).claimed {
                None
            } else {
                old(self).open
            },
            final(self).requested == old(self).requested,
    {
        if any_click && !self.claimed {
            self.close();
        }
        self.claimed = false;
    }
}

} // verus!
