//! The little HTML the Studio's long-form strings carry.
//!
//! `*.infoBody` strings are written as web markup: `<strong>`, `<br>`, the odd
//! link. Rather than strip the tags and lose the structure, this splits a body
//! into lines (on `<br>`) of plain, bold and linked pieces. It is not an HTML
//! parser: it handles exactly the tags these strings use, and anything else
//! is shown as the text it is.

use vstd::prelude::*;
use crate::text::{
    chars_of, extend_chars, find_char, find_char_exec, lemma_find_char, lower, lower_exec,
    occurs_at, occurs_at_exec, slice_chars, string_of, words,
};

verus! {

/// One piece of a rendered line.
pub enum Piece {
    Text(String),
    Strong(String),
    Link { text: String, href: String },
}

/// A piece, as characters.
pub enum PieceView {
    Text(Seq<char>),
    Strong(Seq<char>),
    Link { text: Seq<char>, href: Seq<char> },
}

impl View for Piece {
    type V = PieceView;

    open spec fn view(&self) -> PieceView {
        match self {
            Piece::Text(t) => PieceView::Text(t@),
            Piece::Strong(t) => PieceView::Strong(t@),
            Piece::Link { text, href } => PieceView::Link { text: text@, href: href@ },
        }
    }
}

pub open spec fn line_view(line: Seq<Piece>) -> Seq<PieceView> {
    line.map_values(|p: Piece| p@)
}

pub open spec fn lines_view(lines: Seq<Vec<Piece>>) -> Seq<Seq<PieceView>> {
    lines.map_values(|l: Vec<Piece>| line_view(l@))
}

/// The first index at or after `from` where `p` occurs in `s`, if any.
pub open spec fn find_str(s: Seq<char>, p: Seq<char>, from: int) -> Option<int>
    decreases s.len() + 1 - from,
{
    if from < 0 || from > s.len() {
        None
    } else if occurs_at(s, p, from) {
        Some(from)
    } else {
        find_str(s, p, from + 1)
    }
}

/// The target of an `<a ...>` tag: the quoted value after the first `href=`.
pub open spec fn href_spec(tag: Seq<char>) -> Option<Seq<char>> {
    match find_str(tag, "href="@, 0) {
        None => None,
        Some(at) => {
            let rest = tag.skip(at + 5);
            if rest.len() == 0 {
                None
            } else if rest[0] != '"' && rest[0] != '\'' {
                None
            } else {
                match find_char(rest, rest[0], 1) {
                    None => None,
                    Some(end) => Some(rest.subrange(1, end)),
                }
            }
        },
    }
}

/// The state of a parse: the finished lines, the current line, the bold
/// and link state, and the text not yet made a piece.
#[verifier::ext_equal]
pub struct ParseState {
    pub done: Seq<Seq<PieceView>>,
    pub cur: Seq<PieceView>,
    pub strong: bool,
    pub link: Option<Seq<char>>,
    pub buffer: Seq<char>,
}

/// The buffered text as a piece of the current style, if there is any.
pub open spec fn flush(st: ParseState) -> ParseState {
    if st.buffer.len() == 0 {
        st
    } else {
        let piece = match st.link {
            Some(href) => PieceView::Link { text: st.buffer, href },
            None => if st.strong {
                PieceView::Strong(st.buffer)
            } else {
                PieceView::Text(st.buffer)
            },
        };
        ParseState { cur: st.cur.push(piece), buffer: seq![], ..st }
    }
}

/// The tag's name: its first word, ASCII-lowercased.
pub open spec fn tag_word(tag: Seq<char>) -> Seq<char> {
    if words(tag).len() > 0 {
        lower(words(tag)[0])
    } else {
        seq![]
    }
}

/// What a tag does to the state.
pub open spec fn apply_tag(st: ParseState, tag: Seq<char>) -> ParseState {
    let name = tag_word(tag);
    let f = flush(st);
    if name == "br"@ || name == "br/"@ {
        ParseState { done: f.done.push(f.cur), cur: seq![], ..f }
    } else if name == "strong"@ || name == "b"@ || name == "em"@ || name == "i"@ {
        ParseState { strong: true, ..f }
    } else if name == "/strong"@ || name == "/b"@ || name == "/em"@ || name == "/i"@ {
        ParseState { strong: false, ..f }
    } else if name == "a"@ {
        ParseState { link: href_spec(tag), ..f }
    } else if name == "/a"@ {
        ParseState { link: None, ..f }
    } else {
        f
    }
}

/// The last line closed: every line of the body.
pub open spec fn finish(st: ParseState) -> Seq<Seq<PieceView>> {
    let f = flush(st);
    f.done.push(f.cur)
}

/// The lines of `s` from `pos` on, given the state so far.
pub open spec fn parse_from(s: Seq<char>, pos: int, st: ParseState) -> Seq<Seq<PieceView>>
    decreases s.len() - pos,
{
    if pos < 0 || pos > s.len() {
        finish(st)
    } else {
        match find_char(s, '<', pos) {
            None => finish(ParseState { buffer: st.buffer + s.skip(pos), ..st }),
            Some(o) => match find_char(s, '>', o) {
                None => finish(ParseState { buffer: st.buffer + s.skip(pos), ..st }),
                Some(c) => {
                    proof {
                        lemma_find_char(s, '<', pos);
                        lemma_find_char(s, '>', o);
                    }
                    parse_from(
                        s,
                        c + 1,
                        apply_tag(
                            ParseState { buffer: st.buffer + s.subrange(pos, o), ..st },
                            s.subrange(o + 1, c),
                        ),
                    )
                },
            },
        }
    }
}

pub open spec fn start_state() -> ParseState {
    ParseState { done: seq![], cur: seq![], strong: false, link: None, buffer: seq![] }
}

/// The lines of a body.
pub open spec fn parse_spec(s: Seq<char>) -> Seq<Seq<PieceView>> {
    parse_from(s, 0, start_state())
}

fn find_str_exec(v: &Vec<char>, p: &str, from: usize) -> (r: Option<usize>)
    requires
        from <= v@.len(),
    ensures
        match r {
            Some(i) => find_str(v@, p@, from as int) == Some(i as int),
            None => find_str(v@, p@, from as int) is None,
        },
{
    let n = v.len();
    let mut i = from;
    while i < n
        invariant
            n == v@.len(),
            from <= i <= n,
            find_str(v@, p@, i as int) == find_str(v@, p@, from as int),
        decreases n - i,
    {
        if occurs_at_exec(v, p, i) {
            return Some(i);
        }
        i = i + 1;
    }
    if occurs_at_exec(v, p, n) {
        return Some(n);
    }
    assert(find_str(v@, p@, n + 1) is None);
    None
}

proof fn lemma_find_str(s: Seq<char>, p: Seq<char>, from: int)
    requires
        0 <= from,
    ensures
        find_str(s, p, from) matches Some(i) ==> from <= i && occurs_at(s, p, i) && forall|j: int|
            from <= j < i ==> !occurs_at(s, p, j),
        find_str(s, p, from) is None ==> forall|j: int| from <= j ==> !occurs_at(s, p, j),
    decreases s.len() + 1 - from,
{
    if from <= s.len() && !occurs_at(s, p, from) {
        lemma_find_str(s, p, from + 1);
    }
}

/// The target of an `<a ...>` tag, if it has a quoted `href`.
fn href_of(tag: &Vec<char>) -> (r: Option<String>)
    ensures
        match r {
            Some(h) => href_spec(tag@) == Some(h@),
            None => href_spec(tag@) is None,
        },
{
    let n = tag.len();
    match find_str_exec(tag, "href=", 0) {
        None => None,
        Some(at) => {
            proof {
                lemma_find_str(tag@, "href="@, 0);
                assert("href="@.len() == 5) by {
                    reveal_strlit("href=");
                }
            }
            let start = at + 5;
            let ghost rest = tag@.skip(start as int);
            if start >= n {
                return None;
            }
            let quote = tag[start];
            if quote != '"' && quote != '\'' {
                return None;
            }
            let rest_v = slice_chars(tag, start, n);
            assert(rest_v@ =~= rest);
            match find_char_exec(&rest_v, quote, 1) {
                None => None,
                Some(end) => {
                    proof {
                        lemma_find_char(rest, quote, 1);
                    }
                    let h = slice_chars(&rest_v, 1, end);
                    Some(string_of(&h))
                },
            }
        },
    }
}

/// The first word of `v`, ASCII-lowercased, or nothing.
fn tag_word_exec(v: &Vec<char>) -> (r: Vec<char>)
    ensures
        r@ == tag_word(v@),
{
    let n = v.len();
    let mut a: usize = 0;
    while a < n && crate::text::is_space_exec(v[a])
        invariant
            n == v@.len(),
            a <= n,
            forall|k: int| 0 <= k < a ==> crate::text::is_space(#[trigger] v@[k]),
        decreases n - a,
    {
        a = a + 1;
    }
    if a == n {
        proof {
            lemma_words_of_spaces(v@);
        }
        return Vec::new();
    }
    let mut b: usize = a;
    while b < n && !crate::text::is_space_exec(v[b])
        invariant
            n == v@.len(),
            a <= b <= n,
            forall|k: int| a <= k < b ==> !crate::text::is_space(#[trigger] v@[k]),
        decreases n - b,
    {
        b = b + 1;
    }
    proof {
        lemma_first_word(v@, a as int, b as int);
    }
    let w = slice_chars(v, a, b);
    lower_exec(&w)
}

proof fn lemma_words_of_spaces(s: Seq<char>)
    requires
        forall|k: int| 0 <= k < s.len() ==> crate::text::is_space(#[trigger] s[k]),
    ensures
        words(s).len() == 0,
{
    crate::text::lemma_lead_spaces(s, s.len() as int);
    crate::text::lemma_lead_spaces_bound(s);
}

proof fn lemma_first_word(s: Seq<char>, a: int, b: int)
    requires
        0 <= a < b <= s.len(),
        forall|k: int| 0 <= k < a ==> crate::text::is_space(#[trigger] s[k]),
        forall|k: int| a <= k < b ==> !crate::text::is_space(#[trigger] s[k]),
        b == s.len() || crate::text::is_space(s[b]),
    ensures
        words(s).len() > 0,
        words(s)[0] == s.subrange(a, b),
{
    crate::text::lemma_lead_spaces(s, a);
    let t = s.skip(a);
    assert(crate::text::lead_spaces(t) == 0) by {
        assert(t[0] == s[a]);
    }
    crate::text::lemma_word_len(t, b - a);
    let u = t.skip(b - a);
    assert(crate::text::word_len(u) == 0) by {
        if b < s.len() {
            assert(u[0] == s[b]);
        }
    }
    assert(t.take(b - a) =~= s.subrange(a, b));
}

/// The executable parse state.
struct State {
    done: Vec<Vec<Piece>>,
    cur: Vec<Piece>,
    strong: bool,
    link: Option<String>,
    buffer: Vec<char>,
}

impl State {
    spec fn view_state(&self) -> ParseState {
        ParseState {
            done: lines_view(self.done@),
            cur: line_view(self.cur@),
            strong: self.strong,
            link: match self.link {
                Some(h) => Some(h@),
                None => None,
            },
            buffer: self.buffer@,
        }
    }

    fn flush(&mut self)
        ensures
            final(self).view_state() == flush(old(self).view_state()),
    {
        if self.buffer.len() > 0 {
            let text = string_of(&self.buffer);
            let piece = match &self.link {
                Some(h) => Piece::Link { text, href: h.clone() },
                None => if self.strong {
                    Piece::Strong(text)
                } else {
                    Piece::Text(text)
                },
            };
            self.cur.push(piece);
            self.buffer = Vec::new();
            assert(line_view(self.cur@) =~= line_view(old(self).cur@).push(piece@));
        }
    }

    fn apply_tag(&mut self, tag: &Vec<char>)
        ensures
            final(self).view_state() == apply_tag(old(self).view_state(), tag@),
    {
        let name = tag_word_exec(tag);
        self.flush();
        if crate::text::equals_exec(&name, "br") || crate::text::equals_exec(&name, "br/") {
            let mut line: Vec<Piece> = Vec::new();
            std::mem::swap(&mut line, &mut self.cur);
            let ghost before = self.done@;
            self.done.push(line);
            assert(lines_view(self.done@) =~= lines_view(before).push(line_view(line@)));
        } else if crate::text::equals_exec(&name, "strong") || crate::text::equals_exec(&name, "b")
            || crate::text::equals_exec(&name, "em") || crate::text::equals_exec(&name, "i") {
            self.strong = true;
        } else if crate::text::equals_exec(&name, "/strong") || crate::text::equals_exec(
            &name,
            "/b",
        ) || crate::text::equals_exec(&name, "/em") || crate::text::equals_exec(&name, "/i") {
            self.strong = false;
        } else if crate::text::equals_exec(&name, "a") {
            self.link = href_of(tag);
        } else if crate::text::equals_exec(&name, "/a") {
            self.link = None;
        }
    }

    fn finish(self) -> (lines: Vec<Vec<Piece>>)
        ensures
            lines_view(lines@) == finish(self.view_state()),
    {
        let mut st = self;
        st.flush();
        let mut done = st.done;
        let ghost before = done@;
        done.push(st.cur);
        assert(lines_view(done@) =~= lines_view(before).push(line_view(st.cur@)));
        done
    }
}

/// Split a body into lines (on `<br>`) of styled pieces. A bare angle
/// bracket is text, and an unknown tag is dropped with its content kept.
pub fn parse(body: &str) -> (lines: Vec<Vec<Piece>>)
    ensures
        lines_view(lines@) == parse_spec(body@),
{
    let s = chars_of(body);
    let n = s.len();
    let mut st = State {
        done: Vec::new(),
        cur: Vec::new(),
        strong: false,
        link: None,
        buffer: Vec::new(),
    };
    assert(st.view_state() =~= start_state());
    let mut pos: usize = 0;
    loop
        invariant
            n == s@.len(),
            s@ == body@,
            pos <= n,
            parse_spec(s@) == parse_from(s@, pos as int, st.view_state()),
        decreases n - pos,
    {
        match find_char_exec(&s, '<', pos) {
            None => {
                let ghost s0 = st.view_state();
                let rest = slice_chars(&s, pos, n);
                extend_chars(&mut st.buffer, &rest);
                assert(s@.subrange(pos as int, n as int) =~= s@.skip(pos as int));
                assert(st.view_state() =~= ParseState { buffer: s0.buffer + s@.skip(pos as int), ..s0 });
                return st.finish();
            },
            Some(o) => {
                proof {
                    lemma_find_char(s@, '<', pos as int);
                }
                match find_char_exec(&s, '>', o) {
                    None => {
                        let ghost s0 = st.view_state();
                        let rest = slice_chars(&s, pos, n);
                        extend_chars(&mut st.buffer, &rest);
                        assert(s@.subrange(pos as int, n as int) =~= s@.skip(pos as int));
                        assert(st.view_state() =~= ParseState {
                            buffer: s0.buffer + s@.skip(pos as int),
                            ..s0
                        });
                        return st.finish();
                    },
                    Some(c) => {
                        proof {
                            lemma_find_char(s@, '>', o as int);
                        }
                        let ghost s0 = st.view_state();
                        let head = slice_chars(&s, pos, o);
                        extend_chars(&mut st.buffer, &head);
                        assert(st.view_state() =~= ParseState {
                            buffer: s0.buffer + s@.subrange(pos as int, o as int),
                            ..s0
                        });
                        let tag = slice_chars(&s, o + 1, c);
                        st.apply_tag(&tag);
                        pos = c + 1;
                    },
                }
            },
        }
    }
}

/// Text with no `<` in it is not markup: it comes back as one line holding
/// one plain piece, the text itself (no piece at all when it is empty).
pub proof fn lemma_plain_text_survives(s: Seq<char>)
    requires
        forall|k: int| 0 <= k < s.len() ==> s[k] != '<',
    ensures
        s.len() > 0 ==> parse_spec(s) == seq![seq![PieceView::Text(s)]],
        s.len() == 0 ==> parse_spec(s) == seq![Seq::<PieceView>::empty()],
{
    lemma_no_char(s, '<', 0);
    assert(s.skip(0) =~= s);
    let st = ParseState { buffer: seq![] + s, ..start_state() };
    assert(st.buffer =~= s);
}

proof fn lemma_no_char(s: Seq<char>, c: char, from: int)
    requires
        0 <= from,
        forall|k: int| from <= k < s.len() ==> s[k] != c,
    ensures
        find_char(s, c, from) is None,
    decreases s.len() - from,
{
    if from < s.len() {
        lemma_no_char(s, c, from + 1);
    }
}

/// Every `<` of `s` has a `>` after it in `s`: each tag it opens closes in it.
pub open spec fn tags_closed(s: Seq<char>) -> bool {
    forall|i: int| 0 <= i < s.len() && s[i] == '<' ==> exists|j: int| i < j < s.len() && s[j] == '>'
}

proof fn lemma_close_tag_name()
    ensures
        tag_word("/a"@) == "/a"@,
{
    reveal_strlit("/a");
    let t = "/a"@;
    assert(t.len() == 2 && t[0] == '/' && t[1] == 'a');
    lemma_first_word(t, 0, 2);
    assert(t.subrange(0, 2) =~= t);
    assert(lower(t) =~= t);
}

/// Parsing up to a tag `<…>` that opens at `l` and closes at `c`, with every
/// tag before it closed, comes down to applying that tag to some state.
proof fn lemma_parse_to_tag(s: Seq<char>, l: int, c: int, pos: int, st: ParseState) -> (pre: ParseState)
    requires
        0 <= pos <= l < c < s.len(),
        s[l] == '<',
        s[c] == '>',
        forall|k: int| l < k < c ==> s[k] != '>',
        tags_closed(s.take(l)),
    ensures
        parse_from(s, pos, st) == parse_from(s, c + 1, apply_tag(pre, s.subrange(l + 1, c))),
    decreases l - pos,
{
    lemma_find_char(s, '<', pos);
    let o = find_char(s, '<', pos).unwrap();
    lemma_find_char(s, '>', o);
    let st1 = ParseState { buffer: st.buffer + s.subrange(pos, o), ..st };
    if o < l {
        assert(s.take(l)[o] == '<');
        let j = choose|j: int| o < j < l && s.take(l)[j] == '>';
        assert(s[j] == '>');
        let c2 = find_char(s, '>', o).unwrap();
        lemma_parse_to_tag(s, l, c, c2 + 1, apply_tag(st1, s.subrange(o + 1, c2)))
    } else {
        assert(find_char(s, '>', o) == Some(c));
        st1
    }
}

proof fn lemma_tag_names()
    ensures
        "/a"@ != "br"@ && "/a"@ != "br/"@ && "/a"@ != "strong"@ && "/a"@ != "b"@ && "/a"@ != "em"@
            && "/a"@ != "i"@ && "/a"@ != "a"@,
        "/a"@ != "/strong"@ && "/a"@ != "/b"@ && "/a"@ != "/em"@ && "/a"@ != "/i"@,
        "a"@ != "br"@ && "a"@ != "br/"@ && "a"@ != "strong"@ && "a"@ != "b"@ && "a"@ != "em"@
            && "a"@ != "i"@,
        "a"@ != "/strong"@ && "a"@ != "/b"@ && "a"@ != "/em"@ && "a"@ != "/i"@,
{
    reveal_strlit("/a");
    reveal_strlit("a");
    reveal_strlit("br");
    reveal_strlit("br/");
    reveal_strlit("strong");
    reveal_strlit("b");
    reveal_strlit("em");
    reveal_strlit("i");
    reveal_strlit("/strong");
    reveal_strlit("/b");
    reveal_strlit("/em");
    reveal_strlit("/i");
    assert("/a"@.len() == 2 && "a"@.len() == 1 && "br"@.len() == 2 && "br/"@.len() == 3);
    assert("strong"@.len() == 6 && "b"@.len() == 1 && "em"@.len() == 2 && "i"@.len() == 1);
    assert("/strong"@.len() == 7 && "/b"@.len() == 2 && "/em"@.len() == 3 && "/i"@.len() == 2);
    assert("/a"@[0] != "br"@[0] && "/a"@[0] != "em"@[0] && "/a"@[1] != "/b"@[1] && "/a"@[1]
        != "/i"@[1]);
    assert("a"@[0] != "b"@[0] && "a"@[0] != "i"@[0]);
}

/// The last line of a parse that ends in text with no `<`, after a tag that
/// left a state with nothing buffered: its last piece holds that text, in
/// the style the state gives.
proof fn lemma_parse_tail(s: Seq<char>, from: int, st: ParseState, t: Seq<char>)
    requires
        0 <= from <= s.len(),
        s.skip(from) == t,
        t.len() > 0,
        forall|k: int| 0 <= k < t.len() ==> t[k] != '<',
        st.buffer.len() == 0,
    ensures
        ({
            let ls = parse_from(s, from, st);
            &&& ls.len() > 0
            &&& ls.last().len() > 0
            &&& ls.last().last() == match st.link {
                Some(href) => PieceView::Link { text: t, href },
                None => if st.strong {
                    PieceView::Strong(t)
                } else {
                    PieceView::Text(t)
                },
            }
        }),
{
    assert forall|k: int| from <= k < s.len() implies s[k] != '<' by {
        assert(s[k] == t[k - from]);
    }
    lemma_no_char(s, '<', from);
    let st3 = ParseState { buffer: st.buffer + s.skip(from), ..st };
    assert(st3.buffer =~= t);
}

/// A link ends at its `</a>`: with every tag before it closed, the text
/// after a `</a>` up to the next tag is no link. It is the last piece of the
/// last line, plain or bold.
pub proof fn lemma_link_ends_at_its_close(s1: Seq<char>, t: Seq<char>)
    requires
        tags_closed(s1),
        t.len() > 0,
        forall|k: int| 0 <= k < t.len() ==> t[k] != '<',
    ensures
        ({
            let ls = parse_spec(s1 + "</a>"@ + t);
            &&& ls.len() > 0
            &&& ls.last().len() > 0
            &&& ls.last().last() == PieceView::Text(t) || ls.last().last() == PieceView::Strong(t)
        }),
{
    reveal_strlit("</a>");
    reveal_strlit("/a");
    let s = s1 + "</a>"@ + t;
    let l = s1.len() as int;
    assert(s.take(l) =~= s1);
    assert(s[l] == '<' && s[l + 1] == '/' && s[l + 2] == 'a' && s[l + 3] == '>');
    let pre = lemma_parse_to_tag(s, l, l + 3, 0, start_state());
    assert(s.subrange(l + 1, l + 3) =~= "/a"@);
    lemma_close_tag_name();
    lemma_tag_names();
    let st2 = apply_tag(pre, "/a"@);
    assert(st2.link is None && st2.buffer.len() == 0);
    assert(s.skip(l + 4) =~= t);
    lemma_parse_tail(s, l + 4, st2, t);
}

proof fn lemma_anchor_tag(h: Seq<char>)
    requires
        forall|k: int| 0 <= k < h.len() ==> h[k] != '"',
    ensures
        tag_word("a href=\""@ + h + "\""@) == "a"@,
        href_spec("a href=\""@ + h + "\""@) == Some(h),
{
    reveal_strlit("a href=\"");
    reveal_strlit("\"");
    reveal_strlit("a");
    reveal_strlit("href=");
    let tag = "a href=\""@ + h + "\""@;
    assert(tag[0] == 'a' && tag[1] == ' ');
    assert(crate::text::is_space(tag[1]));
    lemma_first_word(tag, 0, 1);
    assert(tag.subrange(0, 1) =~= "a"@);
    assert(lower("a"@) =~= "a"@);
    let p = "href="@;
    assert(!occurs_at(tag, p, 0)) by {
        assert(tag.subrange(0, 5)[0] == 'a');
    }
    assert(!occurs_at(tag, p, 1)) by {
        assert(tag.subrange(1, 6)[0] == ' ');
    }
    assert(occurs_at(tag, p, 2)) by {
        assert(tag.subrange(2, 7) =~= p);
    }
    assert(find_str(tag, p, 2) == Some(2int));
    assert(find_str(tag, p, 1) == Some(2int));
    assert(find_str(tag, p, 0) == Some(2int));
    let rest = tag.skip(7);
    assert(rest =~= "\""@ + h + "\""@);
    lemma_find_char(rest, '"', 1);
    assert forall|k: int| 1 <= k < h.len() + 1int implies rest[k] != '"' by {
        assert(rest[k] == h[k - 1]);
    }
    assert(rest[h.len() + 1int] == '"');
    assert(find_char(rest, '"', 1) == Some(h.len() + 1int));
    assert(rest.subrange(1, h.len() + 1int) =~= h);
}

/// A link holds the text after its `<a href="…">` and the quoted target:
/// with every tag before it closed, the text after the tag up to the next
/// tag is the last piece of the last line, a link to that target.
pub proof fn lemma_anchor_opens_a_link(s1: Seq<char>, h: Seq<char>, t: Seq<char>)
    requires
        tags_closed(s1),
        forall|k: int| 0 <= k < h.len() ==> h[k] != '"' && h[k] != '>',
        t.len() > 0,
        forall|k: int| 0 <= k < t.len() ==> t[k] != '<',
    ensures
        ({
            let ls = parse_spec(s1 + "<a href=\""@ + h + "\">"@ + t);
            &&& ls.len() > 0
            &&& ls.last().len() > 0
            &&& ls.last().last() == PieceView::Link { text: t, href: h }
        }),
{
    reveal_strlit("<a href=\"");
    reveal_strlit("\">");
    reveal_strlit("a href=\"");
    reveal_strlit("\"");
    let s = s1 + "<a href=\""@ + h + "\">"@ + t;
    let l = s1.len() as int;
    let c = l + 10 + h.len();
    assert(s.take(l) =~= s1);
    assert(s[l] == '<');
    assert(s[c] == '>');
    assert forall|k: int| l < k < c implies s[k] != '>' by {
        if l + 9 <= k < l + 9 + h.len() {
            assert(s[k] == h[k - l - 9]);
        }
    }
    let pre = lemma_parse_to_tag(s, l, c, 0, start_state());
    assert(s.subrange(l + 1, c) =~= "a href=\""@ + h + "\""@);
    lemma_anchor_tag(h);
    lemma_tag_names();
    let st2 = apply_tag(pre, s.subrange(l + 1, c));
    assert(st2.link == Some(h) && st2.buffer.len() == 0);
    assert(s.skip(c + 1) =~= t);
    lemma_parse_tail(s, c + 1, st2, t);
}

/// A tag written in lower case with no space in it is its own name.
proof fn lemma_tag_word_literal(t: Seq<char>)
    requires
        t.len() > 0,
        forall|k: int| 0 <= k < t.len() ==> !crate::text::is_space(#[trigger] t[k]) && !('A' <= t[k]
            && t[k] <= 'Z'),
    ensures
        tag_word(t) == t,
{
    lemma_first_word(t, 0, t.len() as int);
    assert(t.subrange(0, t.len() as int) =~= t);
    assert(lower(t) =~= t);
}

proof fn lemma_style_names()
    ensures
        forall|n: Seq<char>|
            #![trigger tag_word(n)]
            n == "strong"@ || n == "b"@ || n == "em"@ || n == "i"@ || n == "/strong"@ || n == "/b"@
                || n == "/em"@ || n == "/i"@ || n == "br"@ || n == "br/"@ ==> tag_word(n) == n,
        "strong"@ != "br"@ && "strong"@ != "br/"@ && "b"@ != "br"@ && "b"@ != "br/"@ && "em"@ != "br"@
            && "em"@ != "br/"@ && "i"@ != "br"@ && "i"@ != "br/"@,
        "/strong"@ != "br"@ && "/strong"@ != "br/"@ && "/b"@ != "br"@ && "/b"@ != "br/"@ && "/em"@
            != "br"@ && "/em"@ != "br/"@ && "/i"@ != "br"@ && "/i"@ != "br/"@,
        "/strong"@ != "strong"@ && "/strong"@ != "b"@ && "/strong"@ != "em"@ && "/strong"@ != "i"@,
        "/b"@ != "strong"@ && "/b"@ != "b"@ && "/b"@ != "em"@ && "/b"@ != "i"@,
        "/em"@ != "strong"@ && "/em"@ != "b"@ && "/em"@ != "em"@ && "/em"@ != "i"@,
        "/i"@ != "strong"@ && "/i"@ != "b"@ && "/i"@ != "em"@ && "/i"@ != "i"@,
{
    reveal_strlit("strong");
    reveal_strlit("b");
    reveal_strlit("em");
    reveal_strlit("i");
    reveal_strlit("/strong");
    reveal_strlit("/b");
    reveal_strlit("/em");
    reveal_strlit("/i");
    reveal_strlit("br");
    reveal_strlit("br/");
    assert forall|n: Seq<char>|
        #![trigger tag_word(n)]
        n == "strong"@ || n == "b"@ || n == "em"@ || n == "i"@ || n == "/strong"@ || n == "/b"@
            || n == "/em"@ || n == "/i"@ || n == "br"@ || n == "br/"@ implies tag_word(n) == n by {
        lemma_tag_word_literal(n);
    }
    assert("strong"@[0] != "br"@[0] && "em"@[0] != "br"@[0] && "/strong"@[0] != "br"@[0]);
    assert("/em"@[0] != "br/"@[0] && "/i"@[0] != "br"@[0] && "/b"@[0] != "br"@[0]);
    assert("b"@.len() == 1 && "i"@.len() == 1 && "br"@.len() == 2 && "br/"@.len() == 3);
    assert("strong"@.len() == 6 && "em"@.len() == 2 && "/strong"@.len() == 7 && "/b"@.len() == 2);
    assert("/em"@.len() == 3 && "/i"@.len() == 2);
    assert("/i"@[0] != "em"@[0] && "/b"@[0] != "em"@[0]);
}

/// The tag `<n>` that follows `s1`, with every tag in `s1` closed and `t`
/// after it: the parse goes on from that tag applied to some state.
proof fn lemma_parse_after_tag(s1: Seq<char>, n: Seq<char>, t: Seq<char>) -> (pre: ParseState)
    requires
        tags_closed(s1),
        forall|k: int| 0 <= k < n.len() ==> n[k] != '>',
    ensures
        parse_spec(s1 + "<"@ + n + ">"@ + t) == parse_from(s1 + "<"@ + n + ">"@ + t,
            s1.len() + n.len() + 2int, apply_tag(pre, n)),
{
    reveal_strlit("<");
    reveal_strlit(">");
    let s = s1 + "<"@ + n + ">"@ + t;
    let l = s1.len() as int;
    let c = l + 1 + n.len();
    assert(s.take(l) =~= s1);
    assert(s[l] == '<');
    assert(s[c] == '>');
    assert forall|k: int| l < k < c implies s[k] != '>' by {
        assert(s[k] == n[k - l - 1]);
    }
    let pre = lemma_parse_to_tag(s, l, c, 0, start_state());
    assert(s.subrange(l + 1, c) =~= n);
    pre
}

/// Bold text is bold: after `<strong>`, `<b>`, `<em>` or `<i>`, with every
/// tag before it closed, the text up to the next tag is the last piece of
/// the last line, bold unless a link holds it.
pub proof fn lemma_bold_tags_make_bold(s1: Seq<char>, n: Seq<char>, t: Seq<char>)
    requires
        tags_closed(s1),
        n == "strong"@ || n == "b"@ || n == "em"@ || n == "i"@,
        t.len() > 0,
        forall|k: int| 0 <= k < t.len() ==> t[k] != '<',
    ensures
        ({
            let ls = parse_spec(s1 + "<"@ + n + ">"@ + t);
            &&& ls.len() > 0
            &&& ls.last().len() > 0
            &&& ls.last().last() == PieceView::Strong(t) || ls.last().last() is Link
            &&& piece_text(ls.last().last()) == t
        }),
{
    reveal_strlit("strong");
    reveal_strlit("b");
    reveal_strlit("em");
    reveal_strlit("i");
    lemma_style_names();
    assert(tag_word(n) == n);
    reveal_strlit("<");
    reveal_strlit(">");
    let pre = lemma_parse_after_tag(s1, n, t);
    let st = apply_tag(pre, n);
    let s = s1 + "<"@ + n + ">"@ + t;
    assert(s.skip(s1.len() + n.len() + 2int) =~= t);
    assert(st.strong && st.buffer.len() == 0);
    lemma_parse_tail(s, s1.len() + n.len() + 2int, st, t);
}

/// Bold ends at its closing tag: after `</strong>`, `</b>`, `</em>` or
/// `</i>`, with every tag before it closed, the text up to the next tag is
/// the last piece of the last line, plain unless a link holds it.
pub proof fn lemma_bold_ends_at_its_close(s1: Seq<char>, n: Seq<char>, t: Seq<char>)
    requires
        tags_closed(s1),
        n == "/strong"@ || n == "/b"@ || n == "/em"@ || n == "/i"@,
        t.len() > 0,
        forall|k: int| 0 <= k < t.len() ==> t[k] != '<',
    ensures
        ({
            let ls = parse_spec(s1 + "<"@ + n + ">"@ + t);
            &&& ls.len() > 0
            &&& ls.last().len() > 0
            &&& ls.last().last() == PieceView::Text(t) || ls.last().last() is Link
            &&& piece_text(ls.last().last()) == t
        }),
{
    reveal_strlit("/strong");
    reveal_strlit("/b");
    reveal_strlit("/em");
    reveal_strlit("/i");
    lemma_style_names();
    assert(tag_word(n) == n);
    reveal_strlit("<");
    reveal_strlit(">");
    let pre = lemma_parse_after_tag(s1, n, t);
    let st = apply_tag(pre, n);
    let s = s1 + "<"@ + n + ">"@ + t;
    assert(s.skip(s1.len() + n.len() + 2int) =~= t);
    assert(!st.strong && st.buffer.len() == 0);
    lemma_parse_tail(s, s1.len() + n.len() + 2int, st, t);
}

/// A `<br>` (or `<br/>`) starts a new line: with every tag before it closed,
/// the text after it up to the next tag is the whole of the last line, one
/// piece.
pub proof fn lemma_break_starts_a_line(s1: Seq<char>, n: Seq<char>, t: Seq<char>)
    requires
        tags_closed(s1),
        n == "br"@ || n == "br/"@,
        t.len() > 0,
        forall|k: int| 0 <= k < t.len() ==> t[k] != '<',
    ensures
        ({
            let ls = parse_spec(s1 + "<"@ + n + ">"@ + t);
            &&& ls.len() >= 2
            &&& ls.last().len() == 1
            &&& piece_text(ls.last()[0]) == t
        }),
{
    reveal_strlit("br");
    reveal_strlit("br/");
    lemma_style_names();
    assert(tag_word(n) == n);
    reveal_strlit("<");
    reveal_strlit(">");
    let pre = lemma_parse_after_tag(s1, n, t);
    let st = apply_tag(pre, n);
    let s = s1 + "<"@ + n + ">"@ + t;
    assert(s.skip(s1.len() + n.len() + 2int) =~= t);
    assert(st.cur.len() == 0 && st.buffer.len() == 0 && st.done.len() >= 1);
    let from = s1.len() + n.len() + 2int;
    lemma_parse_tail(s, from, st, t);
    assert forall|k: int| from <= k < s.len() implies s[k] != '<' by {
        assert(s[k] == t[k - from]);
    }
    lemma_no_char(s, '<', from);
    let st3 = ParseState { buffer: st.buffer + s.skip(from), ..st };
    assert(st3.buffer =~= t);
    let f = flush(st3);
    assert(f.cur.len() == 1 && f.done.len() >= 1);
    assert(parse_from(s, from, st) == f.done.push(f.cur));
}

/// The text a piece shows.
pub open spec fn piece_text(p: PieceView) -> Seq<char> {
    match p {
        PieceView::Text(t) => t,
        PieceView::Strong(t) => t,
        PieceView::Link { text, .. } => text,
    }
}

/// The text of a line: its pieces' texts, in order.
pub open spec fn line_text(l: Seq<PieceView>) -> Seq<char>
    decreases l.len(),
{
    if l.len() == 0 {
        seq![]
    } else {
        line_text(l.drop_last()) + piece_text(l.last())
    }
}

/// The text of lines, in order.
pub open spec fn body_text(ls: Seq<Seq<PieceView>>) -> Seq<char>
    decreases ls.len(),
{
    if ls.len() == 0 {
        seq![]
    } else {
        body_text(ls.drop_last()) + line_text(ls.last())
    }
}

/// A tag that breaks the line.
pub open spec fn is_line_break(tag: Seq<char>) -> bool {
    tag_word(tag) == "br"@ || tag_word(tag) == "br/"@
}

/// `s` from `pos` on with its tags deleted: each `<` up to the first `>`
/// after it. A `<` with no `>` after it, and all that follows, is text.
pub open spec fn untagged_from(s: Seq<char>, pos: int) -> Seq<char>
    decreases s.len() - pos,
{
    if pos < 0 || pos > s.len() {
        seq![]
    } else {
        match find_char(s, '<', pos) {
            None => s.skip(pos),
            Some(o) => match find_char(s, '>', o) {
                None => s.skip(pos),
                Some(c) => {
                    proof {
                        lemma_find_char(s, '<', pos);
                        lemma_find_char(s, '>', o);
                    }
                    s.subrange(pos, o) + untagged_from(s, c + 1)
                },
            },
        }
    }
}

/// How many line-breaking tags `s` has from `pos` on.
pub open spec fn breaks_from(s: Seq<char>, pos: int) -> nat
    decreases s.len() - pos,
{
    if pos < 0 || pos > s.len() {
        0
    } else {
        match find_char(s, '<', pos) {
            None => 0,
            Some(o) => match find_char(s, '>', o) {
                None => 0,
                Some(c) => {
                    proof {
                        lemma_find_char(s, '<', pos);
                        lemma_find_char(s, '>', o);
                    }
                    (if is_line_break(s.subrange(o + 1, c)) {
                        1nat
                    } else {
                        0nat
                    }) + breaks_from(s, c + 1)
                },
            },
        }
    }
}

pub open spec fn line_pieces_shown(l: Seq<PieceView>) -> bool {
    forall|j: int| 0 <= j < l.len() ==> piece_text(#[trigger] l[j]).len() > 0
}

/// No piece of any line is empty.
pub open spec fn pieces_shown(ls: Seq<Seq<PieceView>>) -> bool {
    forall|i: int| 0 <= i < ls.len() ==> line_pieces_shown(#[trigger] ls[i])
}

/// Everything a parse state holds as text, in order.
pub open spec fn state_text(st: ParseState) -> Seq<char> {
    body_text(st.done) + line_text(st.cur) + st.buffer
}

pub open spec fn state_shown(st: ParseState) -> bool {
    pieces_shown(st.done) && line_pieces_shown(st.cur)
}

proof fn lemma_flush_keeps(st: ParseState)
    requires
        state_shown(st),
    ensures
        state_text(flush(st)) == state_text(st),
        state_shown(flush(st)),
        flush(st).done == st.done,
        flush(st).buffer.len() == 0,
{
    if st.buffer.len() > 0 {
        let f = flush(st);
        assert(f.cur.drop_last() =~= st.cur);
        assert(line_text(f.cur) == line_text(st.cur) + st.buffer);
        assert(state_text(f) =~= state_text(st));
        assert forall|j: int| 0 <= j < f.cur.len() implies piece_text(#[trigger] f.cur[j]).len() > 0 by {
            if j < st.cur.len() {
                assert(f.cur[j] == st.cur[j]);
            }
        }
    } else {
        assert(state_text(st) =~= body_text(st.done) + line_text(st.cur));
        assert(state_text(flush(st)) =~= state_text(st));
    }
}

proof fn lemma_apply_tag_keeps(st: ParseState, tag: Seq<char>)
    requires
        state_shown(st),
    ensures
        state_text(apply_tag(st, tag)) == state_text(st),
        state_shown(apply_tag(st, tag)),
        apply_tag(st, tag).done.len() == st.done.len() + (if is_line_break(tag) {
            1int
        } else {
            0int
        }),
{
    lemma_flush_keeps(st);
    let f = flush(st);
    if is_line_break(tag) {
        let a = apply_tag(st, tag);
        assert(a.done.drop_last() =~= f.done);
        assert(line_text(a.cur) == Seq::<char>::empty());
        assert(state_text(a) =~= state_text(f));
        assert forall|i: int| 0 <= i < a.done.len() implies line_pieces_shown(#[trigger] a.done[i]) by {
            if i < f.done.len() {
                assert(a.done[i] == f.done[i]);
            }
        }
    }
}

proof fn lemma_finish_keeps(st: ParseState)
    requires
        state_shown(st),
    ensures
        body_text(finish(st)) == state_text(st),
        pieces_shown(finish(st)),
        finish(st).len() == st.done.len() + 1,
{
    lemma_flush_keeps(st);
    let f = flush(st);
    let r = finish(st);
    assert(r.drop_last() =~= f.done);
    assert(state_text(f) =~= body_text(f.done) + line_text(f.cur));
    assert forall|i: int| 0 <= i < r.len() implies line_pieces_shown(#[trigger] r[i]) by {
        if i < f.done.len() {
            assert(r[i] == f.done[i]);
        }
    }
}

proof fn lemma_parse_from_keeps(s: Seq<char>, pos: int, st: ParseState)
    requires
        0 <= pos <= s.len(),
        state_shown(st),
    ensures
        body_text(parse_from(s, pos, st)) == state_text(st) + untagged_from(s, pos),
        parse_from(s, pos, st).len() == st.done.len() + 1 + breaks_from(s, pos),
        pieces_shown(parse_from(s, pos, st)),
    decreases s.len() - pos,
{
    lemma_find_char(s, '<', pos);
    match find_char(s, '<', pos) {
        None => {
            let st2 = ParseState { buffer: st.buffer + s.skip(pos), ..st };
            lemma_finish_keeps(st2);
            assert(state_text(st2) =~= state_text(st) + s.skip(pos));
        },
        Some(o) => {
            lemma_find_char(s, '>', o);
            match find_char(s, '>', o) {
                None => {
                    let st2 = ParseState { buffer: st.buffer + s.skip(pos), ..st };
                    lemma_finish_keeps(st2);
                    assert(state_text(st2) =~= state_text(st) + s.skip(pos));
                },
                Some(c) => {
                    let st2 = ParseState { buffer: st.buffer + s.subrange(pos, o), ..st };
                    let tag = s.subrange(o + 1, c);
                    let st3 = apply_tag(st2, tag);
                    lemma_apply_tag_keeps(st2, tag);
                    lemma_parse_from_keeps(s, c + 1, st3);
                    assert(state_text(st2) =~= state_text(st) + s.subrange(pos, o));
                    assert(state_text(st) + untagged_from(s, pos) =~= state_text(st3) + untagged_from(
                        s,
                        c + 1,
                    ));
                },
            }
        },
    }
}

/// Parsing keeps every character of the body but its tags: the pieces'
/// texts, line after line, are the body with each `<...>` deleted (a `<`
/// with no `>` after it, and what follows, stays text); no piece is empty;
/// and there is one line more than there are `<br>` tags.
pub proof fn lemma_parse_keeps_the_text(s: Seq<char>)
    ensures
        body_text(parse_spec(s)) == untagged_from(s, 0),
        parse_spec(s).len() == 1 + breaks_from(s, 0),
        pieces_shown(parse_spec(s)),
{
    let st = start_state();
    assert(body_text(st.done) == Seq::<char>::empty());
    assert(line_text(st.cur) == Seq::<char>::empty());
    assert(state_text(st) =~= Seq::<char>::empty());
    lemma_parse_from_keeps(s, 0, st);
    assert(state_text(st) + untagged_from(s, 0) =~= untagged_from(s, 0));
}

/// `href=` stands at `i` and nowhere before.
pub open spec fn first_href(tag: Seq<char>, i: int) -> bool {
    occurs_at(tag, "href="@, i) && forall|j: int| 0 <= j < i ==> !occurs_at(tag, "href="@, j)
}

/// A link's target is the text between the quote that follows the first
/// `href=` and the next same quote; without such a pair there is none.
pub proof fn lemma_href_is_the_quoted_value(tag: Seq<char>)
    ensures
        match href_spec(tag) {
            Some(h) => exists|i: int, e: int|
                #![trigger first_href(tag, i), tag[e]]
                {
                    &&& first_href(tag, i)
                    &&& i + 6 <= e < tag.len()
                    &&& (tag[i + 5] == '"' || tag[i + 5] == '\'')
                    &&& tag[e] == tag[i + 5]
                    &&& forall|k: int| i + 6 <= k < e ==> #[trigger] tag[k] != tag[i + 5]
                    &&& h == tag.subrange(i + 6, e)
                },
            None => forall|i: int|
                #[trigger] first_href(tag, i) ==> (i + 5 >= tag.len() || (tag[i + 5] != '"' && tag[i
                    + 5] != '\'') || forall|k: int| i + 6 <= k < tag.len() ==> #[trigger] tag[k] != tag[i + 5]),
        },
{
    reveal_strlit("href=");
    lemma_find_str(tag, "href="@, 0);
    match find_str(tag, "href="@, 0) {
        None => {},
        Some(at) => {
            assert(first_href(tag, at));
            assert forall|i: int| #[trigger] first_href(tag, i) implies i == at by {
                if i < at {
                    assert(!occurs_at(tag, "href="@, i));
                } else if i > at {
                    assert(!occurs_at(tag, "href="@, at));
                }
            }
            let rest = tag.skip(at + 5);
            if rest.len() > 0 && (rest[0] == '"' || rest[0] == '\'') {
                assert(rest[0] == tag[at + 5]);
                lemma_find_char(rest, rest[0], 1);
                match find_char(rest, rest[0], 1) {
                    Some(end) => {
                        let e = at + 5 + end;
                        assert(tag[e] == rest[end]);
                        assert forall|k: int| at + 6 <= k < e implies #[trigger] tag[k] != tag[at + 5] by {
                            assert(tag[k] == rest[k - at - 5]);
                        }
                        assert(rest.subrange(1, end) =~= tag.subrange(at + 6, e));
                        assert(first_href(tag, at));
                    },
                    None => {
                        assert forall|k: int| at + 6 <= k < tag.len() implies #[trigger] tag[k] != tag[at + 5] by {
                            assert(tag[k] == rest[k - at - 5]);
                        }
                    },
                }
            }
        },
    }
}

} // verus!
