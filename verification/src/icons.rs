//! The grammar of the icons' SVG path data: splitting a path into command
//! runs, and a run's arguments into number tokens. Turning the tokens into
//! numbers and the commands into points is floating-point work, left to the
//! caller.

use vstd::prelude::*;
use crate::text::{find_char, find_char_exec, lemma_find_char, slice_chars};

verus! {

/// A path command letter: an ASCII letter other than an exponent's `e`.
pub open spec fn is_command(c: char) -> bool {
    (('a' <= c && c <= 'z') || ('A' <= c && c <= 'Z')) && c != 'e' && c != 'E'
}

/// The first command letter at or after `j`, or the end.
pub open spec fn next_command(s: Seq<char>, j: int) -> int
    decreases s.len() - j,
{
    if j < 0 || j >= s.len() {
        s.len() as int
    } else if is_command(s[j]) {
        j
    } else {
        next_command(s, j + 1)
    }
}

/// The command runs of `s` from `i` on: each command letter with the text up
/// to the next one. Text before the first command is ignored.
pub open spec fn runs_from(s: Seq<char>, i: int) -> Seq<(char, Seq<char>)>
    decreases s.len() - i,
{
    if i < 0 || i >= s.len() {
        seq![]
    } else if is_command(s[i]) {
        let j = next_command(s, i + 1);
        if j <= i {
            seq![]
        } else {
            proof {
                lemma_next_command(s, i + 1);
            }
            seq![(s[i], s.subrange(i + 1, j))] + runs_from(s, j)
        }
    } else {
        runs_from(s, i + 1)
    }
}

/// The next command letter is at or after `j`, and within the text.
pub proof fn lemma_next_command(s: Seq<char>, j: int)
    requires
        0 <= j,
    ensures
        j <= next_command(s, j) || (j > s.len() && next_command(s, j) == s.len()),
        next_command(s, j) <= s.len(),
    decreases s.len() - j,
{
    if j < s.len() && !is_command(s[j]) {
        lemma_next_command(s, j + 1);
    }
}

fn is_command_exec(c: char) -> (r: bool)
    ensures
        r == is_command(c),
{
    (('a' <= c && c <= 'z') || ('A' <= c && c <= 'Z')) && c != 'e' && c != 'E'
}

pub open spec fn run_views(v: Seq<(char, Vec<char>)>) -> Seq<(char, Seq<char>)> {
    v.map_values(|r: (char, Vec<char>)| (r.0, r.1@))
}

/// Split path data into `(command, arguments)` runs.
pub fn command_runs(d: &Vec<char>) -> (r: Vec<(char, Vec<char>)>)
    ensures
        run_views(r@) == runs_from(d@, 0),
{
    let n = d.len();
    let mut out: Vec<(char, Vec<char>)> = Vec::new();
    let mut i: usize = 0;
    while i < n
        invariant
            n == d@.len(),
            i <= n,
            run_views(out@) + runs_from(d@, i as int) == runs_from(d@, 0),
        decreases n - i,
    {
        if is_command_exec(d[i]) {
            let mut j: usize = i + 1;
            proof {
                lemma_next_command(d@, j as int);
            }
            while j < n && !is_command_exec(d[j])
                invariant
                    n == d@.len(),
                    i < j <= n,
                    next_command(d@, j as int) == next_command(d@, i + 1),
                decreases n - j,
            {
                j = j + 1;
            }
            let args = slice_chars(d, i + 1, j);
            let ghost before = out@;
            out.push((d[i], args));
            proof {
                assert(run_views(out@) =~= run_views(before).push((d@[i as int], d@.subrange(i + 1, j as int))));
                assert(runs_from(d@, i as int) == seq![(d@[i as int], d@.subrange(i + 1, j as int))] + runs_from(d@, j as int));
                assert(run_views(out@) + runs_from(d@, j as int) =~= run_views(before) + runs_from(d@, i as int));
            }
            i = j;
        } else {
            i = i + 1;
        }
    }
    proof {
        assert(run_views(out@) + runs_from(d@, i as int) =~= run_views(out@));
    }
    out
}

/// The current token, ended: kept when it has something in it.
pub open spec fn flushed(out: Seq<Seq<char>>, cur: Seq<char>) -> Seq<Seq<char>> {
    if cur.len() > 0 {
        out.push(cur)
    } else {
        out
    }
}

/// One character of an argument list: digits and exponents extend the
/// token; a second decimal point, or a sign that does not follow an exponent,
/// starts a new one; anything else ends it.
pub open spec fn token_step(out: Seq<Seq<char>>, cur: Seq<char>, c: char) -> (Seq<Seq<char>>, Seq<char>) {
    if '0' <= c && c <= '9' {
        (out, cur.push(c))
    } else if c == '.' {
        if cur.contains('.') {
            (flushed(out, cur), seq!['.'])
        } else {
            (out, cur.push('.'))
        }
    } else if c == '-' || c == '+' {
        if cur.len() > 0 && cur.last() != 'e' && cur.last() != 'E' {
            (flushed(out, cur), seq![c])
        } else {
            (out, cur.push(c))
        }
    } else if c == 'e' || c == 'E' {
        (out, cur.push(c))
    } else {
        (flushed(out, cur), seq![])
    }
}

/// The tokens ended so far, and the one under way, after the characters of `s`.
pub open spec fn token_scan(s: Seq<char>) -> (Seq<Seq<char>>, Seq<char>)
    decreases s.len(),
{
    if s.len() == 0 {
        (seq![], seq![])
    } else {
        let (out, cur) = token_scan(s.drop_last());
        token_step(out, cur, s.last())
    }
}

/// The number tokens of an argument list: signs and a second decimal point
/// both start a new number, as the SVG grammar allows (`-2.3-2.3`, `.586`,
/// `1.2.5`).
pub open spec fn number_tokens_spec(s: Seq<char>) -> Seq<Seq<char>> {
    flushed(token_scan(s).0, token_scan(s).1)
}

pub open spec fn token_views(v: Seq<Vec<char>>) -> Seq<Seq<char>> {
    v.map_values(|t: Vec<char>| t@)
}

fn flush_token(out: &mut Vec<Vec<char>>, cur: Vec<char>)
    ensures
        token_views(final(out)@) == flushed(token_views(old(out)@), cur@),
{
    if cur.len() > 0 {
        let ghost before = out@;
        out.push(cur);
        assert(token_views(out@) =~= token_views(before).push(cur@));
    }
}

/// Split an argument list into its number tokens.
pub fn number_tokens(s: &Vec<char>) -> (r: Vec<Vec<char>>)
    ensures
        token_views(r@) == number_tokens_spec(s@),
{
    let mut out: Vec<Vec<char>> = Vec::new();
    let mut cur: Vec<char> = Vec::new();
    let mut i: usize = 0;
    while i < s.len()
        invariant
            i <= s@.len(),
            (token_views(out@), cur@) == token_scan(s@.take(i as int)),
        decreases s@.len() - i,
    {
        let c = s[i];
        proof {
            assert(s@.take(i + 1).drop_last() =~= s@.take(i as int));
            assert(s@.take(i + 1).last() == c);
        }
        if '0' <= c && c <= '9' {
            cur.push(c);
        } else if c == '.' {
            proof {
                lemma_find_char(cur@, '.', 0);
            }
            let point = find_char_exec(&cur, '.', 0);
            if point.is_some() {
                assert(cur@.contains('.'));
                flush_token(&mut out, cur);
                cur = Vec::new();
                cur.push('.');
                assert(cur@ =~= seq!['.']);
            } else {
                assert(!cur@.contains('.'));
                cur.push('.');
            }
        } else if c == '-' || c == '+' {
            let n = cur.len();
            if n > 0 && cur[n - 1] != 'e' && cur[n - 1] != 'E' {
                flush_token(&mut out, cur);
                cur = Vec::new();
                cur.push(c);
                assert(cur@ =~= seq![c]);
            } else {
                cur.push(c);
            }
        } else if c == 'e' || c == 'E' {
            cur.push(c);
        } else {
            flush_token(&mut out, cur);
            cur = Vec::new();
            assert(cur@ =~= Seq::<char>::empty());
        }
        i = i + 1;
    }
    proof {
        assert(s@.take(i as int) =~= s@);
    }
    flush_token(&mut out, cur);
    out
}

} // verus!
