//! Object (source) naming and colouring: display names, the short badge
//! code, the A/B source tag and the palette entry of an object.

use vstd::prelude::*;
use crate::text::{
    ascii_lower, ascii_lower_exec, ascii_upper, ascii_upper_exec, chars_of, ends_with,
    equals_exec, extend_chars, find_char, find_char_exec, lemma_find_char, lower, lower_exec,
    occurs_at_exec, slice_chars, starts_with, starts_with_exec, string_of, trim, trim_exec,
};

verus! {

/// `app.objectDisplayMode`.
#[derive(Clone, Copy, Debug, PartialEq, Eq, Structural)]
pub enum ObjectDisplayMode {
    Circle,
    TransparentSphere,
    DiffuseSphere,
}

impl ObjectDisplayMode {
    pub fn label(self) -> (r: &'static str)
        ensures
            r@ == match self {
                ObjectDisplayMode::Circle => "Circle"@,
                ObjectDisplayMode::TransparentSphere => "Transparent sphere"@,
                ObjectDisplayMode::DiffuseSphere => "Diffuse sphere"@,
            },
    {
        match self {
            ObjectDisplayMode::Circle => "Circle",
            ObjectDisplayMode::TransparentSphere => "Transparent sphere",
            ObjectDisplayMode::DiffuseSphere => "Diffuse sphere",
        }
    }
}

/// The injected test source.
pub const OBJECT_TEST_SOURCE_ID: &'static str = "injection";

/// The semantic colours of A and B sources (sRGB hex).
pub const TAG_A: u32 = 0xff8b6b;

pub const TAG_B: u32 = 0x62d7c7;

/// The palette of untagged objects (sRGB hex).
pub open spec fn palette() -> Seq<u32> {
    seq![
        0xff6b6bu32,
        0x4ecdc4,
        0xffe66d,
        0x5dade2,
        0xaf7ac5,
        0xf5b041,
        0x58d68d,
        0xec7063,
        0x48c9b0,
        0xf4d03f,
        0x5499c7,
        0xa569bd,
        0xeb984e,
        0x45b39d,
        0x7fb3d5,
        0xf1948a,
    ]
}

pub open spec fn is_sep(c: char) -> bool {
    c == '_' || c == ':' || c == '-'
}

/// The name shown for an object: the trimmed name when there is one, else
/// the id.
pub open spec fn raw_name(id: Seq<char>, name: Option<Seq<char>>) -> Seq<char> {
    match name {
        Some(n) => if trim(n).len() > 0 {
            trim(n)
        } else {
            id
        },
        None => id,
    }
}

/// The raw name (or the id) without a leading
/// `a_`/`v_`-style channel prefix, then without a leading `obj_`-style one.
pub open spec fn display_name_spec(id: Seq<char>, name: Option<Seq<char>>) -> Seq<char> {
    let raw = raw_name(id, name);
    let s = if raw.len() >= 2 && (ascii_lower(raw[0]) == 'a' || ascii_lower(raw[0]) == 'v')
        && is_sep(raw[1]) {
        raw.skip(2)
    } else {
        raw
    };
    if s.len() >= 4 && lower(s.take(3)) == "obj"@ && is_sep(s[3]) {
        s.skip(4)
    } else {
        s
    }
}

/// The part of `rest` around its first `_` joined by a middle dot, when both
/// sides are non-empty; else `rest`.
pub open spec fn phantom_code(rest: Seq<char>) -> Seq<char> {
    match find_char(rest, '_', 0) {
        Some(k) => if k > 0 && k + 1 < rest.len() {
            rest.take(k).push('\u{b7}') + rest.skip(k + 1)
        } else {
            rest
        },
        None => rest,
    }
}

/// `objectBadge(id).code`, over the display name `n` and its lowercase `l`.
pub open spec fn badge_spec(id: Seq<char>, name: Option<Seq<char>>) -> Seq<char> {
    let n = display_name_spec(id, name);
    let l = lower(n);
    if id == OBJECT_TEST_SOURCE_ID@ {
        "INJ"@
    } else if starts_with(l, "ambience_"@) && n.len() > "ambience_"@.len() {
        n.skip("ambience_"@.len() as int)
    } else if starts_with(l, "height_"@) && ends_with(l, "_synth"@) && n.len() > "height_"@.len()
        + "_synth"@.len() {
        n.subrange("height_"@.len() as int, n.len() - "_synth"@.len())
    } else if starts_with(l, "diffuse_"@) && n.len() > "diffuse_"@.len() {
        n.skip("diffuse_"@.len() as int)
    } else if starts_with(l, "phantom_"@) && n.len() > "phantom_"@.len() {
        phantom_code(n.skip("phantom_"@.len() as int))
    } else if starts_with(l, "directh_"@) && n.len() > "directh_"@.len() {
        n.skip("directh_"@.len() as int).push('\u{2191}')
    } else if starts_with(l, "direct_"@) && n.len() > "direct_"@.len() {
        n.skip("direct_"@.len() as int)
    } else {
        match find_char(n, '_', 0) {
            Some(k) => if k + 1 < n.len() {
                n.skip(k + 1)
            } else {
                n
            },
            None => n,
        }
    }
}

/// Over a stored tag, the stored tag's first
/// character when it is A or B (either case), else the id's `a_`/`b_` (or
/// `a:`/`b:`) prefix.
pub open spec fn source_tag_spec(id: Seq<char>, stored: Option<Seq<char>>) -> Option<char> {
    let from_store = match stored {
        Some(t) => if trim(t).len() > 0 {
            Some(ascii_upper(trim(t)[0]))
        } else {
            None
        },
        None => None,
    };
    if from_store == Some('A') || from_store == Some('B') {
        from_store
    } else if id.len() >= 2 && (id[1] == '_' || id[1] == ':') && ascii_lower(id[0]) == 'a' {
        Some('A')
    } else if id.len() >= 2 && (id[1] == '_' || id[1] == ':') && ascii_lower(id[0]) == 'b' {
        Some('B')
    } else {
        None
    }
}

/// The UTF-16 code units of one character.
pub open spec fn utf16_of(c: char) -> Seq<u16> {
    let u = c as u32;
    if u < 0x10000 {
        seq![u as u16]
    } else {
        let v = (u - 0x10000) as u32;
        seq![(0xD800 + (v >> 10u32)) as u16, (0xDC00 + (v & 0x3FFu32)) as u16]
    }
}

/// `str::encode_utf16`.
pub open spec fn utf16(s: Seq<char>) -> Seq<u16>
    decreases s.len(),
{
    if s.len() == 0 {
        seq![]
    } else {
        utf16(s.drop_last()) + utf16_of(s.last())
    }
}

/// FNV-1a over 16-bit units.
pub open spec fn fnv1a(units: Seq<u16>) -> u32
    decreases units.len(),
{
    if units.len() == 0 {
        2166136261u32
    } else {
        (fnv1a(units.drop_last()) ^ (units.last() as u32)).wrapping_mul(16777619u32)
    }
}

/// The value of a run of decimal digits.
pub open spec fn digits_value(d: Seq<char>) -> int
    decreases d.len(),
{
    if d.len() == 0 {
        0
    } else {
        digits_value(d.drop_last()) * 10 + (d.last() as int - '0' as int)
    }
}

/// What `str::parse::<i64>` makes of a string, as std documents it: an
/// optional `+` or `-` followed by one or more ASCII digits and nothing else,
/// whose value fits an `i64`.
pub open spec fn parsed_i64(s: Seq<char>) -> Option<i64> {
    let negative = s.len() > 0 && s[0] == '-';
    let signed = s.len() > 0 && (s[0] == '-' || s[0] == '+');
    let digits = if signed { s.skip(1) } else { s };
    let magnitude = digits_value(digits);
    let value = if negative { -magnitude } else { magnitude };
    if digits.len() > 0 && (forall|i: int| 0 <= i < digits.len() ==> '0' <= #[trigger] digits[i] && digits[i] <= '9')
        && i64::MIN <= value && value <= i64::MAX {
        Some(value as i64)
    } else {
        None
    }
}

/// `str::parse::<i64>` (std's `FromStr` for `i64`). The contract claims what
/// std documents: an optional sign and decimal digits only, no whitespace or
/// underscores, and an error when the value does not fit.
#[verifier::external_body]
fn parse_i64(s: &str) -> (r: Option<i64>)
    ensures
        r == parsed_i64(s@),
{
    s.parse::<i64>().ok()
}

pub open spec fn unsigned_abs(n: i64) -> nat {
    if n < 0 {
        (-n) as nat
    } else {
        n as nat
    }
}

/// An object's colour before its conversion to linear light: the colour
/// (sRGB hex) and whether it is a semantic A/B colour.
pub open spec fn base_color_spec(id: Seq<char>, tag: Option<Seq<char>>) -> (u32, bool) {
    match source_tag_spec(id, tag) {
        Some('A') => (TAG_A, true),
        Some('B') => (TAG_B, true),
        _ => match parsed_i64(id) {
            Some(n) => (palette()[(unsigned_abs(n) % 16) as int], false),
            None => (palette()[(fnv1a(utf16(id)) % 16) as int], false),
        },
    }
}

/// Text that starts with a non-space character trims to text that starts
/// with it.
proof fn lemma_trim_keeps_first(t: Seq<char>)
    requires
        t.len() > 0,
        !crate::text::is_space(t[0]),
    ensures
        trim(t).len() > 0,
        trim(t)[0] == t[0],
{
    assert(crate::text::lead_spaces(t) == 0);
    assert(t.skip(0) =~= t);
    lemma_trail_short(t);
}

proof fn lemma_trail_short(t: Seq<char>)
    requires
        t.len() > 0,
        !crate::text::is_space(t[0]),
    ensures
        crate::text::trail_spaces(t) < t.len(),
    decreases t.len(),
{
    if t.len() > 1 && crate::text::is_space(t.last()) {
        assert(t.drop_last()[0] == t[0]);
        lemma_trail_short(t.drop_last());
    }
}

/// A stored tag that starts with `a` or `b` (either case) gives the A or the
/// B colour, whatever the id says; either way the colour is a semantic one.
pub proof fn lemma_stored_side_gives_the_colour(id: Seq<char>, t: Seq<char>)
    requires
        t.len() > 0,
    ensures
        t[0] == 'a' || t[0] == 'A' ==> base_color_spec(id, Some(t)) == (TAG_A, true),
        t[0] == 'b' || t[0] == 'B' ==> base_color_spec(id, Some(t)) == (TAG_B, true),
{
    if t[0] == 'a' || t[0] == 'A' || t[0] == 'b' || t[0] == 'B' {
        lemma_trim_keeps_first(t);
        assert(ascii_upper('a') == 'A' && ascii_upper('b') == 'B');
    }
}

/// With no stored tag naming a side, an id written `a_…`/`a:…` or
/// `b_…`/`b:…` (either case) gives that side's semantic colour, and an id on
/// neither side gets a palette colour, no semantic one.
pub proof fn lemma_id_side_gives_the_colour(id: Seq<char>, tag: Option<Seq<char>>)
    requires
        tag is None || (tag matches Some(t) && t.len() > 0 && !crate::text::is_space(t[0]) && t[0]
            != 'a' && t[0] != 'A' && t[0] != 'b' && t[0] != 'B'),
    ensures
        id.len() >= 2 && (id[1] == '_' || id[1] == ':') && (id[0] == 'a' || id[0] == 'A')
            ==> base_color_spec(id, tag) == (TAG_A, true),
        id.len() >= 2 && (id[1] == '_' || id[1] == ':') && (id[0] == 'b' || id[0] == 'B')
            ==> base_color_spec(id, tag) == (TAG_B, true),
        !(id.len() >= 2 && (id[1] == '_' || id[1] == ':') && (id[0] == 'a' || id[0] == 'A'
            || id[0] == 'b' || id[0] == 'B')) ==> !base_color_spec(id, tag).1,
{
    if let Some(t) = tag {
        lemma_trim_keeps_first(t);
        let c = t[0];
        assert(ascii_upper(c) != 'A' && ascii_upper(c) != 'B');
    }
    assert(ascii_lower('A') == 'a' && ascii_lower('B') == 'b');
    if id.len() >= 2 {
        let c = id[0];
        assert(ascii_lower(c) == 'a' ==> c == 'a' || c == 'A');
        assert(ascii_lower(c) == 'b' ==> c == 'b' || c == 'B');
    }
}

fn option_chars(name: Option<&str>) -> (r: Option<Vec<char>>)
    ensures
        match name {
            Some(n) => r matches Some(v) && v@ == n@,
            None => r is None,
        },
{
    match name {
        Some(n) => Some(chars_of(n)),
        None => None,
    }
}

fn raw_name_exec(id: &str, name: Option<&str>) -> (r: Vec<char>)
    ensures
        r@ == raw_name(id@, match name {
            Some(n) => Some(n@),
            None => None,
        }),
{
    match name {
        Some(n) => {
            let t = trim_exec(n);
            if t.len() > 0 {
                t
            } else {
                chars_of(id)
            }
        },
        None => chars_of(id),
    }
}

fn is_sep_exec(c: char) -> (r: bool)
    ensures
        r == is_sep(c),
{
    c == '_' || c == ':' || c == '-'
}

fn display_name_chars(id: &str, name: Option<&str>) -> (r: Vec<char>)
    ensures
        r@ == display_name_spec(id@, match name {
            Some(n) => Some(n@),
            None => None,
        }),
{
    let raw = raw_name_exec(id, name);
    let s = if raw.len() >= 2 && (ascii_lower_exec(raw[0]) == 'a' || ascii_lower_exec(raw[0])
        == 'v') && is_sep_exec(raw[1]) {
        slice_chars(&raw, 2, raw.len())
    } else {
        raw
    };
    proof {
        assert(s@.take(3).len() == 3 ==> lower(s@.take(3)).len() == 3);
    }
    if s.len() >= 4 && is_sep_exec(s[3]) {
        let head = slice_chars(&s, 0, 3);
        let head_lower = lower_exec(&head);
        if equals_exec(&head_lower, "obj") {
            return slice_chars(&s, 4, s.len());
        }
    }
    s
}

/// The raw name (or the id) without a leading
/// `a_`/`v_`/`obj_`-style technical prefix.
pub fn display_name(id: &str, name: Option<&str>) -> (r: String)
    ensures
        r@ == display_name_spec(id@, match name {
            Some(n) => Some(n@),
            None => None,
        }),
{
    string_of(&display_name_chars(id, name))
}

/// `n` with its first `k` characters dropped, when `l` starts with `prefix`
/// and something follows it.
fn after(n: &Vec<char>, l: &Vec<char>, prefix: &str) -> (r: Option<Vec<char>>)
    requires
        l@.len() == n@.len(),
    ensures
        match r {
            Some(v) => starts_with(l@, prefix@) && n@.len() > prefix@.len() && v@ == n@.skip(
                prefix@.len() as int,
            ),
            None => !(starts_with(l@, prefix@) && n@.len() > prefix@.len()),
        },
{
    let k = prefix.unicode_len();
    if starts_with_exec(l, prefix) && n.len() > k {
        let v = slice_chars(n, k, n.len());
        assert(v@ =~= n@.skip(k as int));
        Some(v)
    } else {
        None
    }
}

/// `objectBadge(id).code`: the short code drawn on an object's badge.
pub fn badge_code(id: &str, name: Option<&str>) -> (r: String)
    ensures
        r@ == badge_spec(id@, match name {
            Some(n) => Some(n@),
            None => None,
        }),
{
    let idv = chars_of(id);
    if equals_exec(&idv, OBJECT_TEST_SOURCE_ID) {
        return "INJ".to_owned();
    }
    let n = display_name_chars(id, name);
    let l = lower_exec(&n);
    assert(l@.len() == n@.len());
    if let Some(rest) = after(&n, &l, "ambience_") {
        return string_of(&rest);
    }
    let hp = "height_".unicode_len();
    let sp = "_synth".unicode_len();
    if starts_with_exec(&l, "height_") && l.len() >= sp && occurs_at_exec(&l, "_synth", l.len() - sp)
        && n.len() > hp && n.len() - hp > sp {
        let mid = slice_chars(&n, hp, n.len() - sp);
        return string_of(&mid);
    }
    if let Some(rest) = after(&n, &l, "diffuse_") {
        return string_of(&rest);
    }
    if let Some(rest) = after(&n, &l, "phantom_") {
        match find_char_exec(&rest, '_', 0) {
            Some(k) => {
                proof {
                    lemma_find_char(rest@, '_', 0);
                }
                if k > 0 && k + 1 < rest.len() {
                    let mut code = slice_chars(&rest, 0, k);
                    code.push('\u{b7}');
                    let tail = slice_chars(&rest, k + 1, rest.len());
                    extend_chars(&mut code, &tail);
                    assert(tail@ =~= rest@.skip(k + 1));
                    return string_of(&code);
                }
                return string_of(&rest);
            },
            None => {
                return string_of(&rest);
            },
        }
    }
    if let Some(rest) = after(&n, &l, "directh_") {
        let mut code = rest;
        code.push('\u{2191}');
        return string_of(&code);
    }
    if let Some(rest) = after(&n, &l, "direct_") {
        return string_of(&rest);
    }
    match find_char_exec(&n, '_', 0) {
        Some(k) => {
            proof {
                lemma_find_char(n@, '_', 0);
            }
            if k + 1 < n.len() {
                let code = slice_chars(&n, k + 1, n.len());
                assert(code@ =~= n@.skip(k + 1));
                return string_of(&code);
            }
            string_of(&n)
        },
        None => string_of(&n),
    }
}

/// The source tag from the stored tag or the id: `Some('A' | 'B')`.
fn source_tag(id: &str, stored: Option<&str>) -> (r: Option<char>)
    ensures
        r == source_tag_spec(id@, match stored {
            Some(t) => Some(t@),
            None => None,
        }),
{
    let from_store = match stored {
        Some(t) => {
            let tt = trim_exec(t);
            if tt.len() > 0 {
                Some(ascii_upper_exec(tt[0]))
            } else {
                None
            }
        },
        None => None,
    };
    if from_store == Some('A') || from_store == Some('B') {
        return from_store;
    }
    let v = chars_of(id);
    if v.len() >= 2 && (v[1] == '_' || v[1] == ':') {
        let c = ascii_lower_exec(v[0]);
        if c == 'a' {
            return Some('A');
        }
        if c == 'b' {
            return Some('B');
        }
    }
    None
}

/// The UTF-16 units of one character.
fn utf16_units_of(c: char) -> (r: Vec<u16>)
    ensures
        r@ == utf16_of(c),
{
    let u: u32 = c as u32;
    let mut r: Vec<u16> = Vec::new();
    if u < 0x10000 {
        r.push(u as u16);
    } else {
        let v: u32 = u - 0x10000;
        assert(0 <= (v >> 10u32) < 0x400 && (v & 0x3FFu32) < 0x400) by (bit_vector)
            requires
                v < 0x100000,
        ;
        r.push((0xD800 + (v >> 10u32)) as u16);
        r.push((0xDC00 + (v & 0x3FFu32)) as u16);
    }
    assert(r@ =~= utf16_of(c));
    r
}

/// FNV-1a over the UTF-16 code units of the id.
fn hash_object_id(id: &str) -> (h: u32)
    ensures
        h == fnv1a(utf16(id@)),
{
    let v = chars_of(id);
    let mut h: u32 = 2166136261;
    let mut i: usize = 0;
    let ghost mut done: Seq<u16> = seq![];
    while i < v.len()
        invariant
            i <= v@.len(),
            done == utf16(v@.take(i as int)),
            h == fnv1a(done),
        decreases v@.len() - i,
    {
        let units = utf16_units_of(v[i]);
        let mut k: usize = 0;
        while k < units.len()
            invariant
                k <= units@.len(),
                h == fnv1a(done + units@.take(k as int)),
            decreases units@.len() - k,
        {
            let ghost before = done + units@.take(k as int);
            h = (h ^ (units[k] as u32)).wrapping_mul(16777619);
            k = k + 1;
            assert((done + units@.take(k as int)).drop_last() =~= before);
        }
        proof {
            assert(units@.take(units@.len() as int) =~= units@);
            assert(v@.take(i + 1).drop_last() =~= v@.take(i as int));
            done = done + units@;
        }
        i = i + 1;
    }
    assert(v@.take(v@.len() as int) =~= v@);
    h
}

/// An object's colour before its conversion to linear light: the sRGB hex
/// colour of an object and whether it is a semantic A/B colour. Untagged
/// objects take a palette entry by their numeric id, or by the hash of their
/// id when it is not a number.
pub fn base_color_hex(id: &str, tag: Option<&str>) -> (r: (u32, bool))
    ensures
        r == base_color_spec(id@, match tag {
            Some(t) => Some(t@),
            None => None,
        }),
{
    let pal: [u32; 16] = [
        0xff6b6b,
        0x4ecdc4,
        0xffe66d,
        0x5dade2,
        0xaf7ac5,
        0xf5b041,
        0x58d68d,
        0xec7063,
        0x48c9b0,
        0xf4d03f,
        0x5499c7,
        0xa569bd,
        0xeb984e,
        0x45b39d,
        0x7fb3d5,
        0xf1948a,
    ];
    assert(pal@ =~= palette());
    match source_tag(id, tag) {
        Some('A') => (TAG_A, true),
        Some('B') => (TAG_B, true),
        _ => {
            let idx: usize = match parse_i64(id) {
                Some(n) => {
                    let a: u64 = if n >= 0 {
                        n as u64
                    } else {
                        ((-(n + 1)) as u64) + 1
                    };
                    (a % 16) as usize
                },
                None => (hash_object_id(id) % 16) as usize,
            };
            (pal[idx], false)
        },
    }
}

} // verus!
