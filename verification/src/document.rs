//! The document: its layers, layouts and the bookkeeping it keeps for each
//! entity, with layout names, colors, line types, and the plain records that
//! a document keeps about views, sheets and references.
//!
//! A document's entities are modelled by their id, layer name, kind and (for
//! text entities) text, which is all that this logic reads of them. Their
//! geometry is floating point and stays with the caller, as do each layer's
//! line weight, each layout's paper and page setup, each viewport's
//! placement and the entities' line weights.
use vstd::prelude::*;

use std::collections::BTreeMap;

use crate::text::{
    chars_eq, chars_of, eq_ignore_case, is_alpha, is_digit, lower, lower_vec, owned, parse_u8,
    parse_u8_chars, push_char, string_of, trim, trim_vec,
};

verus! {

// ---------------------------------------------------------------------------
// Layouts
// ---------------------------------------------------------------------------

/// Whether a layout is the model space or a paper layout.
#[derive(Clone, Copy, Debug, PartialEq, Eq, Structural)]
pub enum LayoutKind {
    Model,
    Paper,
}

/// The canonical form of a layout tab name: surrounding whitespace removed,
/// and the model tab (`model` in any case, or an empty name) written `Model`.
pub open spec fn layout_name(name: Seq<char>) -> Seq<char> {
    let t = trim(name);
    if t.len() == 0 || eq_ignore_case(t, "model"@) {
        "Model"@
    } else {
        t
    }
}

/// Normalizes a layout tab name (`Model` vs paper layouts).
pub fn normalized_layout_name(name: &str) -> (r: String)
    ensures
        r@ == layout_name(name@),
{
    let t = trim_vec(&chars_of(name));
    let model = chars_of("model");
    if t.len() == 0 || chars_eq(&lower_vec(&t), &lower_vec(&model)) {
        owned("Model")
    } else {
        string_of(&t)
    }
}

/// Normalizing a layout name twice gives the same name as normalizing once.
pub proof fn law_layout_name_idempotent(name: Seq<char>)
    ensures
        layout_name(layout_name(name)) == layout_name(name),
{
    reveal_strlit("Model");
    reveal_strlit("model");
    let t = trim(name);
    crate::text::lemma_trim_start_is_suffix(name);
    crate::text::lemma_trim_end_is_prefix(trim_start_of(name));
    lemma_trim_of_trimmed(name);
    if t.len() == 0 || eq_ignore_case(t, "model"@) {
        let m = "Model"@;
        assert(m.len() == 5);
        assert forall|j: int| 0 <= j < 5 implies !crate::text::is_ws(#[trigger] m[j]) by {
        }
        crate::text::lemma_trim_start_exact(m, 0);
        assert(m.skip(0) == m);
        crate::text::lemma_trim_end_exact(m, 5);
        assert(m.take(5) == m);
        assert(crate::text::lower(m) =~= "model"@);
        assert(crate::text::lower("model"@) =~= "model"@);
    }
}

spec fn trim_start_of(s: Seq<char>) -> Seq<char> {
    crate::text::trim_start(s)
}

/// Trimming an already trimmed sequence changes nothing.
pub proof fn lemma_trim_of_trimmed(s: Seq<char>)
    ensures
        trim(trim(s)) == trim(s),
{
    let a = crate::text::trim_start(s);
    crate::text::lemma_trim_start_is_suffix(s);
    crate::text::lemma_trim_end_is_prefix(a);
    let t = trim(s);
    if t.len() == 0 {
        crate::text::lemma_trim_start_exact(t, 0);
        crate::text::lemma_trim_end_exact(t, 0);
        assert(t.skip(0) == t);
        assert(t.take(0) == t);
    } else {
        // `t` starts with the first character of `a`, which is not whitespace,
        // and ends with a character that is not whitespace.
        assert(t[0] == a[0]);
        crate::text::lemma_trim_start_exact(t, 0);
        assert(t.skip(0) == t);
        crate::text::lemma_trim_end_exact(t, t.len() as int);
        assert(t.take(t.len() as int) == t);
    }
}

/// An external file kept in the document as a reference.
#[derive(Clone, Debug)]
pub struct ImportedReference {
    pub path: String,
    pub format: String,
    pub summary: String,
    pub warnings: Vec<String>,
}

/// A named drawing view.
#[derive(Clone, Debug)]
pub struct DrawingView {
    pub name: String,
    pub view_type: String,
}

impl DrawingView {
    pub fn new(name: &str, view_type: &str) -> (r: Self)
        ensures
            r.name@ == name@,
            r.view_type@ == view_type@,
    {
        DrawingView { name: owned(name), view_type: owned(view_type) }
    }
}

/// A drawing sheet description.
#[derive(Clone, Debug)]
pub struct DrawingSheet {
    pub name: String,
    pub format: String,
    pub orientation: String,
    pub projection: String,
}

// ---------------------------------------------------------------------------
// Colors
// ---------------------------------------------------------------------------

pub open spec fn is_hex_char(c: char) -> bool {
    ('0' <= c && c <= '9') || ('a' <= c && c <= 'f') || ('A' <= c && c <= 'F')
}

pub open spec fn hex_value(c: char) -> nat {
    if '0' <= c && c <= '9' {
        ((c as u32) - ('0' as u32)) as nat
    } else if 'a' <= c && c <= 'f' {
        ((c as u32) - ('a' as u32) + 10) as nat
    } else {
        ((c as u32) - ('A' as u32) + 10) as nat
    }
}

/// The lower-case hexadecimal digit for `n < 16`.
pub open spec fn hex_digit(n: nat) -> char {
    if n < 10 {
        (('0' as u32) + n) as char
    } else {
        (('a' as u32) + n - 10) as char
    }
}

/// Two lower-case hexadecimal digits (`{:02x}`).
pub open spec fn hex2(b: u8) -> Seq<char> {
    seq![hex_digit((b / 16) as nat), hex_digit((b % 16) as nat)]
}

/// `char::is_ascii_whitespace`.
pub open spec fn is_ascii_ws(c: char) -> bool {
    c == ' ' || c == '\t' || c == '\n' || c == '\x0C' || c == '\r'
}

pub open spec fn is_color_sep(c: char) -> bool {
    c == ',' || is_ascii_ws(c)
}

/// Number of leading characters of `s` that are not separators.
pub open spec fn part_len(s: Seq<char>) -> nat
    decreases s.len(),
{
    if s.len() == 0 || is_color_sep(s[0]) {
        0
    } else {
        1 + part_len(s.drop_first())
    }
}

pub proof fn lemma_part_len_bound(s: Seq<char>)
    ensures
        part_len(s) <= s.len(),
        s.len() > 0 && !is_color_sep(s[0]) ==> part_len(s) >= 1,
    decreases s.len(),
{
    if s.len() > 0 && !is_color_sep(s[0]) {
        lemma_part_len_bound(s.drop_first());
    }
}

pub proof fn lemma_part_len_exact(s: Seq<char>, n: int)
    requires
        0 <= n <= s.len(),
        forall|i: int| 0 <= i < n ==> !is_color_sep(#[trigger] s[i]),
        n < s.len() ==> is_color_sep(s[n]),
    ensures
        part_len(s) == n,
    decreases n,
{
    if n > 0 {
        let t = s.drop_first();
        assert forall|i: int| 0 <= i < n - 1 implies !is_color_sep(#[trigger] t[i]) by {
            assert(t[i] == s[i + 1]);
        }
        if n - 1 < t.len() {
            assert(t[n - 1] == s[n]);
        }
        lemma_part_len_exact(t, n - 1);
    }
}

/// The non-empty pieces of `s` between commas and ASCII whitespace.
pub open spec fn color_parts(s: Seq<char>) -> Seq<Seq<char>>
    decreases s.len(),
{
    if s.len() == 0 {
        seq![]
    } else if is_color_sep(s[0]) {
        color_parts(s.drop_first())
    } else {
        let n = part_len(s);
        proof {
            lemma_part_len_bound(s);
        }
        seq![s.take(n as int)] + color_parts(s.skip(n as int))
    }
}

/// The text inside `rgb(...)`, or the whole text when it is not so wrapped.
pub open spec fn rgb_inner(v: Seq<char>) -> Seq<char> {
    if v.len() >= 5 && v[0] == 'r' && v[1] == 'g' && v[2] == 'b' && v[3] == '(' && v.last()
        == ')' {
        v.subrange(4, v.len() - 1)
    } else {
        v
    }
}

/// The channels of six hexadecimal digits.
pub open spec fn hex_color(h: Seq<char>) -> Option<(u8, u8, u8)> {
    if h.len() == 6 && (forall|i: int| 0 <= i < 6 ==> is_hex_char(#[trigger] h[i])) {
        Some(
            (
                (hex_value(h[0]) * 16 + hex_value(h[1])) as u8,
                (hex_value(h[2]) * 16 + hex_value(h[3])) as u8,
                (hex_value(h[4]) * 16 + hex_value(h[5])) as u8,
            ),
        )
    } else {
        None
    }
}

/// The channels of three decimal numbers, possibly wrapped in `rgb(...)`.
pub open spec fn decimal_color(v: Seq<char>) -> Option<(u8, u8, u8)> {
    let parts = color_parts(rgb_inner(v));
    if parts.len() != 3 {
        None
    } else {
        match (parse_u8(parts[0]), parse_u8(parts[1]), parse_u8(parts[2])) {
            (Some(r), Some(g), Some(b)) => Some((r, g, b)),
            _ => None,
        }
    }
}

/// The channels that an already trimmed color text names.
pub open spec fn trimmed_color_channels(v: Seq<char>) -> Option<(u8, u8, u8)> {
    let h = if v.len() > 0 && v[0] == '#' { v.drop_first() } else { v };
    match hex_color(h) {
        Some(c) => Some(c),
        None => decimal_color(v),
    }
}

/// The red, green and blue channels that a color text names: `#rrggbb`,
/// `rrggbb`, `rgb(r, g, b)` or three decimal numbers separated by commas or
/// spaces.
pub open spec fn color_channels(value: Seq<char>) -> Option<(u8, u8, u8)> {
    trimmed_color_channels(trim(value))
}

/// The stored form of a color text: `None` for an empty text or `default`
/// (any case), `#rrggbb` in lower case when the text names channels, and the
/// trimmed text otherwise.
pub open spec fn color_value(value: Seq<char>) -> Option<Seq<char>> {
    let v = trim(value);
    if v.len() == 0 || eq_ignore_case(v, "default"@) {
        None
    } else {
        match color_channels(v) {
            Some((r, g, b)) => Some("#"@ + hex2(r) + hex2(g) + hex2(b)),
            None => Some(v),
        }
    }
}

/// A hexadecimal digit written by `hex_digit` reads back as its value.
proof fn lemma_hex_digit_round_trip(n: nat)
    requires
        n < 16,
    ensures
        is_hex_char(hex_digit(n)),
        !is_color_sep(hex_digit(n)),
        hex_value(hex_digit(n)) == n,
{
}

/// The channels that a stored `#rrggbb` color names are those it was
/// written from.
proof fn lemma_hex_color_round_trip(r: u8, g: u8, b: u8)
    ensures
        hex_color(hex2(r) + hex2(g) + hex2(b)) == Some((r, g, b)),
{
    let h = hex2(r) + hex2(g) + hex2(b);
    lemma_hex_digit_round_trip((r / 16) as nat);
    lemma_hex_digit_round_trip((r % 16) as nat);
    lemma_hex_digit_round_trip((g / 16) as nat);
    lemma_hex_digit_round_trip((g % 16) as nat);
    lemma_hex_digit_round_trip((b / 16) as nat);
    lemma_hex_digit_round_trip((b % 16) as nat);
    assert(h.len() == 6);
    assert(h[0] == hex_digit((r / 16) as nat));
    assert(h[1] == hex_digit((r % 16) as nat));
    assert(h[2] == hex_digit((g / 16) as nat));
    assert(h[3] == hex_digit((g % 16) as nat));
    assert(h[4] == hex_digit((b / 16) as nat));
    assert(h[5] == hex_digit((b % 16) as nat));
    assert forall|i: int| 0 <= i < 6 implies is_hex_char(#[trigger] h[i]) by {
    }
}

/// Normalizing a stored color gives it back: what `color_value` returns is
/// already in its stored form.
pub proof fn law_color_value_idempotent(value: Seq<char>)
    ensures
        match color_value(value) {
            Some(c) => color_value(c) == Some(c),
            None => true,
        },
{
    reveal_strlit("default");
    reveal_strlit("#");
    let v = trim(value);
    lemma_trim_of_trimmed(value);
    if v.len() == 0 || eq_ignore_case(v, "default"@) {
    } else {
        match color_channels(v) {
            Some((r, g, b)) => {
                let h = hex2(r) + hex2(g) + hex2(b);
                let c = "#"@ + h;
                lemma_hex_color_round_trip(r, g, b);
                lemma_hex_digit_round_trip((b % 16) as nat);
                assert(c.len() == 7);
                assert(c[0] == '#');
                assert(c.last() == h[5]);
                lemma_trim_of_word(c);
                assert(lower(c)[0] != lower("default"@)[0]);
                assert(c.drop_first() =~= h);
                assert(color_channels(c) == Some((r, g, b)));
            },
            None => {
                assert(color_channels(v) == trimmed_color_channels(v));
            },
        }
    }
}

fn is_hex(c: char) -> (r: bool)
    ensures
        r == is_hex_char(c),
{
    ('0' <= c && c <= '9') || ('a' <= c && c <= 'f') || ('A' <= c && c <= 'F')
}

fn hex_val(c: char) -> (r: u8)
    requires
        is_hex_char(c),
    ensures
        r == hex_value(c),
        r < 16,
{
    let u = c as u32;
    if '0' <= c && c <= '9' {
        (u - '0' as u32) as u8
    } else if 'a' <= c && c <= 'f' {
        (u - 'a' as u32 + 10) as u8
    } else {
        (u - 'A' as u32 + 10) as u8
    }
}

fn hex_char(n: u8) -> (r: char)
    requires
        n < 16,
    ensures
        r == hex_digit(n as nat),
{
    if n < 10 {
        let b: u8 = 48 + n;
        let r = b as char;
        assert(r == (('0' as u32) + n as nat) as char);
        r
    } else {
        let b: u8 = 97 + n - 10;
        let r = b as char;
        assert(r == (('a' as u32) + n as nat - 10) as char);
        r
    }
}

fn push_hex2(s: &mut String, b: u8)
    ensures
        final(s)@ == old(s)@ + hex2(b),
{
    push_char(s, hex_char(b / 16));
    push_char(s, hex_char(b % 16));
    assert(final(s)@ =~= old(s)@ + hex2(b));
}

fn is_ascii_whitespace(c: char) -> (r: bool)
    ensures
        r == is_ascii_ws(c),
{
    c == ' ' || c == '\t' || c == '\n' || c == '\x0C' || c == '\r'
}

/// The pieces of `v` between commas and ASCII whitespace, empty pieces
/// dropped.
fn split_color_parts(v: &Vec<char>) -> (r: Vec<Vec<char>>)
    ensures
        r@.map_values(|w: Vec<char>| w@) == color_parts(v@),
{
    let mut r: Vec<Vec<char>> = Vec::new();
    let mut i: usize = 0;
    assert(v@.skip(0) == v@);
    while i < v.len()
        invariant
            i <= v.len(),
            r@.map_values(|w: Vec<char>| w@) + color_parts(v@.skip(i as int)) == color_parts(v@),
        decreases v.len() - i,
    {
        let ghost rest = v@.skip(i as int);
        let c = v[i];
        if c == ',' || is_ascii_whitespace(c) {
            proof {
                assert(rest[0] == v@[i as int]);
                assert(rest.drop_first() == v@.skip(i + 1));
            }
            i += 1;
        } else {
            let start = i;
            let mut part: Vec<char> = Vec::new();
            while i < v.len() && !(v[i] == ',' || is_ascii_whitespace(v[i]))
                invariant
                    start <= i <= v.len(),
                    part@ == v@.subrange(start as int, i as int),
                    forall|j: int| start <= j < i ==> !is_color_sep(#[trigger] v@[j]),
                decreases v.len() - i,
            {
                part.push(v[i]);
                assert(v@.subrange(start as int, i + 1) == v@.subrange(start as int, i as int).push(
                    v@[i as int],
                ));
                i += 1;
            }
            proof {
                let n = i - start;
                assert forall|j: int| 0 <= j < n implies !is_color_sep(#[trigger] rest[j]) by {
                    assert(rest[j] == v@[start + j]);
                }
                if n < rest.len() {
                    assert(rest[n as int] == v@[i as int]);
                }
                lemma_part_len_exact(rest, n as int);
                assert(rest[0] == v@[start as int]);
                assert(rest.take(n as int) == part@);
                assert(rest.skip(n as int) == v@.skip(i as int));
                let old_r = r@.map_values(|w: Vec<char>| w@);
                assert(color_parts(rest) == seq![part@] + color_parts(v@.skip(i as int)));
                assert(r@.push(part).map_values(|w: Vec<char>| w@) == old_r.push(part@));
                assert(old_r.push(part@) + color_parts(v@.skip(i as int)) == old_r + color_parts(
                    rest,
                ));
            }
            r.push(part);
        }
    }
    proof {
        assert(v@.skip(v.len() as int) == Seq::<char>::empty());
        assert(r@.map_values(|w: Vec<char>| w@) + color_parts(Seq::<char>::empty()) == r@.map_values(
            |w: Vec<char>| w@,
        ));
    }
    r
}

fn channels_of_trimmed(v: &Vec<char>) -> (r: Option<(u8, u8, u8)>)
    ensures
        r == trimmed_color_channels(v@),
{
    let start: usize = if v.len() > 0 && v[0] == '#' { 1 } else { 0 };
    let ghost h = if v@.len() > 0 && v@[0] == '#' { v@.drop_first() } else { v@ };
    assert(h == v@.skip(start as int));
    if v.len() - start == 6 && is_hex(v[start]) && is_hex(v[start + 1]) && is_hex(v[start + 2])
        && is_hex(v[start + 3]) && is_hex(v[start + 4]) && is_hex(v[start + 5]) {
        let r = hex_val(v[start]) * 16 + hex_val(v[start + 1]);
        let g = hex_val(v[start + 2]) * 16 + hex_val(v[start + 3]);
        let b = hex_val(v[start + 4]) * 16 + hex_val(v[start + 5]);
        proof {
            assert forall|i: int| 0 <= i < 6 implies is_hex_char(#[trigger] h[i]) by {
                assert(h[i] == v@[start + i]);
            }
            assert(h[0] == v@[start as int]);
            assert(h[1] == v@[start + 1]);
            assert(h[2] == v@[start + 2]);
            assert(h[3] == v@[start + 3]);
            assert(h[4] == v@[start + 4]);
            assert(h[5] == v@[start + 5]);
        }
        return Some((r, g, b));
    }
    proof {
        if h.len() == 6 {
            let k: int = if !is_hex_char(v@[start as int]) {
                0
            } else if !is_hex_char(v@[start + 1]) {
                1
            } else if !is_hex_char(v@[start + 2]) {
                2
            } else if !is_hex_char(v@[start + 3]) {
                3
            } else if !is_hex_char(v@[start + 4]) {
                4
            } else {
                5
            };
            assert(h[k] == v@[start + k]);
            assert(!is_hex_char(h[k]));
        }
    }
    // `rgb(...)` or plain separated numbers.
    let n = v.len();
    let wrapped = n >= 5 && v[0] == 'r' && v[1] == 'g' && v[2] == 'b' && v[3] == '(' && v[n - 1]
        == ')';
    let mut inner: Vec<char> = Vec::new();
    let (from, to) = if wrapped { (4usize, n - 1) } else { (0usize, n) };
    let mut i = from;
    while i < to
        invariant
            from <= i <= to <= n == v.len(),
            inner@ == v@.subrange(from as int, i as int),
        decreases to - i,
    {
        inner.push(v[i]);
        assert(v@.subrange(from as int, i + 1) == v@.subrange(from as int, i as int).push(
            v@[i as int],
        ));
        i += 1;
    }
    assert(inner@ == rgb_inner(v@)) by {
        if !wrapped {
            assert(v@.subrange(0, n as int) == v@);
        }
    }
    let parts = split_color_parts(&inner);
    if parts.len() != 3 {
        return None;
    }
    proof {
        let p = parts@.map_values(|w: Vec<char>| w@);
        assert(p[0] == parts@[0]@);
        assert(p[1] == parts@[1]@);
        assert(p[2] == parts@[2]@);
    }
    let r = parse_u8_chars(&parts[0]);
    let g = parse_u8_chars(&parts[1]);
    let b = parse_u8_chars(&parts[2]);
    match (r, g, b) {
        (Some(r), Some(g), Some(b)) => Some((r, g, b)),
        _ => None,
    }
}

/// The red, green and blue channels that a color text names.
pub fn parse_color_channels(value: &str) -> (r: Option<(u8, u8, u8)>)
    ensures
        r == color_channels(value@),
{
    let v = trim_vec(&chars_of(value));
    channels_of_trimmed(&v)
}

/// The stored form of a color text.
pub fn normalize_color_value(value: &str) -> (r: Option<String>)
    ensures
        match r {
            Some(s) => color_value(value@) == Some(s@),
            None => color_value(value@).is_none(),
        },
{
    let v = trim_vec(&chars_of(value));
    proof {
        lemma_trim_of_trimmed(value@);
    }
    if v.len() == 0 || chars_eq(&lower_vec(&v), &lower_vec(&chars_of("default"))) {
        return None;
    }
    match channels_of_trimmed(&v) {
        Some((r, g, b)) => {
            let mut s = owned("#");
            push_hex2(&mut s, r);
            push_hex2(&mut s, g);
            push_hex2(&mut s, b);
            proof {
                assert(color_channels(v@) == trimmed_color_channels(trim(v@)));
            }
            Some(s)
        },
        None => {
            proof {
                assert(color_channels(v@) == trimmed_color_channels(trim(v@)));
            }
            Some(string_of(&v))
        },
    }
}

// ---------------------------------------------------------------------------
// Line types and defaults
// ---------------------------------------------------------------------------

/// The canonical line type that a line type text names: `Dashed`, `Dotted`,
/// `Center`, and `Continuous` for anything else.
pub open spec fn line_type_name(value: Seq<char>) -> Seq<char> {
    let v = lower(trim(value));
    if v == "dashed"@ || v == "dash"@ || v == "discontinua"@ {
        "Dashed"@
    } else if v == "dotted"@ || v == "dot"@ || v == "punteada"@ {
        "Dotted"@
    } else if v == "center"@ || v == "centre"@ || v == "eje"@ {
        "Center"@
    } else {
        "Continuous"@
    }
}

/// A text whose first and last characters are not whitespace is its own
/// trimmed form.
proof fn lemma_trim_of_word(m: Seq<char>)
    requires
        m.len() > 0,
        !crate::text::is_ws(m[0]),
        !crate::text::is_ws(m.last()),
    ensures
        trim(m) == m,
{
    crate::text::lemma_trim_start_exact(m, 0);
    assert(m.skip(0) == m);
    crate::text::lemma_trim_end_exact(m, m.len() as int);
    assert(m.take(m.len() as int) == m);
}

/// Each canonical line type names itself.
proof fn lemma_line_type_canonical(m: Seq<char>)
    requires
        m == "Dashed"@ || m == "Dotted"@ || m == "Center"@ || m == "Continuous"@,
    ensures
        line_type_name(m) == m,
{
    reveal_strlit("Dashed");
    reveal_strlit("Dotted");
    reveal_strlit("Center");
    reveal_strlit("Continuous");
    reveal_strlit("dashed");
    reveal_strlit("dash");
    reveal_strlit("discontinua");
    reveal_strlit("dotted");
    reveal_strlit("dot");
    reveal_strlit("punteada");
    reveal_strlit("center");
    reveal_strlit("centre");
    reveal_strlit("eje");
    lemma_trim_of_word(m);
    if m == "Dashed"@ {
        assert(lower(m) =~= "dashed"@);
    } else if m == "Dotted"@ {
        assert(lower(m) =~= "dotted"@);
        assert(lower(m)[1] != "dashed"@[1]);
    } else if m == "Center"@ {
        assert(lower(m) =~= "center"@);
        assert(lower(m)[1] != "dashed"@[1]);
        assert(lower(m)[1] != "dotted"@[1]);
    } else {
        assert(lower(m).len() == 10);
    }
}

/// Each line type alias names its canonical type, without regard to ASCII
/// case or surrounding whitespace: `dashed`, `dash` and `discontinua` name
/// `Dashed`; `dotted`, `dot` and `punteada` name `Dotted`; `center`,
/// `centre` and `eje` name `Center`; every other text names `Continuous`.
pub proof fn law_line_type_aliases(value: Seq<char>)
    ensures
        ({
            let v = lower(trim(value));
            &&& line_type_name(value) == "Dashed"@ <==> (v == "dashed"@ || v == "dash"@ || v
                == "discontinua"@)
            &&& line_type_name(value) == "Dotted"@ <==> (v == "dotted"@ || v == "dot"@ || v
                == "punteada"@)
            &&& line_type_name(value) == "Center"@ <==> (v == "center"@ || v == "centre"@ || v
                == "eje"@)
            &&& line_type_name(value) == "Continuous"@ <==> !(v == "dashed"@ || v == "dash"@ || v
                == "discontinua"@ || v == "dotted"@ || v == "dot"@ || v == "punteada"@ || v
                == "center"@ || v == "centre"@ || v == "eje"@)
        }),
{
    reveal_strlit("Dashed");
    reveal_strlit("Dotted");
    reveal_strlit("Center");
    reveal_strlit("Continuous");
    let d = "Dashed"@;
    let o = "Dotted"@;
    let c = "Center"@;
    let n = "Continuous"@;
    assert(d[1] != o[1]);
    assert(d[0] != c[0]);
    assert(o[0] != c[0]);
    assert(d.len() != n.len());
    assert(o.len() != n.len());
    assert(c.len() != n.len());
    reveal_strlit("dashed");
    reveal_strlit("dash");
    reveal_strlit("discontinua");
    reveal_strlit("dotted");
    reveal_strlit("dot");
    reveal_strlit("punteada");
    reveal_strlit("center");
    reveal_strlit("centre");
    reveal_strlit("eje");
    assert("dashed"@.len() == 6);
    assert("dashed"@[0] == 'd');
    assert("dashed"@[1] == 'a');
    assert("dashed"@[2] == 's');
    assert("dash"@.len() == 4);
    assert("dash"@[0] == 'd');
    assert("dash"@[1] == 'a');
    assert("dash"@[2] == 's');
    assert("discontinua"@.len() == 11);
    assert("discontinua"@[0] == 'd');
    assert("discontinua"@[1] == 'i');
    assert("discontinua"@[2] == 's');
    assert("dotted"@.len() == 6);
    assert("dotted"@[0] == 'd');
    assert("dotted"@[1] == 'o');
    assert("dotted"@[2] == 't');
    assert("dot"@.len() == 3);
    assert("dot"@[0] == 'd');
    assert("dot"@[1] == 'o');
    assert("dot"@[2] == 't');
    assert("punteada"@.len() == 8);
    assert("punteada"@[0] == 'p');
    assert("punteada"@[1] == 'u');
    assert("punteada"@[2] == 'n');
    assert("center"@.len() == 6);
    assert("center"@[0] == 'c');
    assert("center"@[1] == 'e');
    assert("center"@[2] == 'n');
    assert("centre"@.len() == 6);
    assert("centre"@[0] == 'c');
    assert("centre"@[1] == 'e');
    assert("centre"@[2] == 'n');
    assert("eje"@.len() == 3);
    assert("eje"@[0] == 'e');
    assert("eje"@[1] == 'j');
    assert("eje"@[2] == 'e');
}

/// Normalizing a line type twice gives what normalizing it once gives: the
/// canonical names are kept as they are.
pub proof fn law_line_type_name_idempotent(value: Seq<char>)
    ensures
        line_type_name(line_type_name(value)) == line_type_name(value),
{
    lemma_line_type_canonical(line_type_name(value));
}

fn is_lit(v: &Vec<char>, lit: &str) -> (r: bool)
    ensures
        r == (v@ == lit@),
{
    chars_eq(v, &chars_of(lit))
}

/// The canonical line type that a line type text names.
pub fn normalized_linetype(value: &str) -> (r: String)
    ensures
        r@ == line_type_name(value@),
{
    let v = lower_vec(&trim_vec(&chars_of(value)));
    if is_lit(&v, "dashed") || is_lit(&v, "dash") || is_lit(&v, "discontinua") {
        owned("Dashed")
    } else if is_lit(&v, "dotted") || is_lit(&v, "dot") || is_lit(&v, "punteada") {
        owned("Dotted")
    } else if is_lit(&v, "center") || is_lit(&v, "centre") || is_lit(&v, "eje") {
        owned("Center")
    } else {
        owned("Continuous")
    }
}

/// The layout a document opens on.
pub fn default_active_layout() -> (r: String)
    ensures
        r@ == "Model"@,
{
    owned("Model")
}

/// The layer a document draws on when none is chosen.
pub fn default_active_layer_name() -> (r: String)
    ensures
        r@ == "Default"@,
{
    owned("Default")
}

/// The color of a new layer.
pub fn default_layer_color() -> (r: String)
    ensures
        r@ == "#a3a7b0"@,
{
    owned("#a3a7b0")
}

/// The line type of a new layer.
pub fn default_layer_linetype() -> (r: String)
    ensures
        r@ == "Continuous"@,
{
    owned("Continuous")
}

/// New layers print.
pub fn default_layer_printable() -> (r: bool)
    ensures
        r,
{
    true
}

/// New viewports are visible.
pub fn default_viewport_visible() -> (r: bool)
    ensures
        r,
{
    true
}

/// New viewports show their border.
pub fn default_viewport_border_visible() -> (r: bool)
    ensures
        r,
{
    true
}

// ---------------------------------------------------------------------------
// Documents
// ---------------------------------------------------------------------------

/// A document layer.
#[derive(Clone, Debug)]
pub struct Layer {
    pub name: String,
    pub color: String,
    pub visible: bool,
    pub locked: bool,
    pub line_type: String,
    pub printable: bool,
}

/// The kinds of drawing entity.
#[derive(Clone, Copy, Debug, PartialEq, Eq, Structural)]
pub enum EntityKind {
    Point,
    Line,
    Polyline,
    Spline,
    Circle,
    Text,
    Dimension,
    Hatch,
    Table,
    BlockReference,
    Guideline,
}

/// The name that the interface shows for a kind of entity.
pub open spec fn kind_label(k: EntityKind) -> Seq<char> {
    match k {
        EntityKind::Point => "Point"@,
        EntityKind::Line => "Line"@,
        EntityKind::Polyline => "Polyline"@,
        EntityKind::Spline => "Spline"@,
        EntityKind::Circle => "Circle"@,
        EntityKind::Text => "Text"@,
        EntityKind::Dimension => "Dimension"@,
        EntityKind::Hatch => "Hatch"@,
        EntityKind::Table => "Table"@,
        EntityKind::BlockReference => "Block"@,
        EntityKind::Guideline => "Guideline"@,
    }
}

impl EntityKind {
    /// The name that the interface shows for this kind (`Block` for a block
    /// reference).
    pub fn label(self) -> (r: &'static str)
        ensures
            r@ == kind_label(self),
    {
        match self {
            EntityKind::Point => "Point",
            EntityKind::Line => "Line",
            EntityKind::Polyline => "Polyline",
            EntityKind::Spline => "Spline",
            EntityKind::Circle => "Circle",
            EntityKind::Text => "Text",
            EntityKind::Dimension => "Dimension",
            EntityKind::Hatch => "Hatch",
            EntityKind::Table => "Table",
            EntityKind::BlockReference => "Block",
            EntityKind::Guideline => "Guideline",
        }
    }
}

/// An entity, as far as the document's bookkeeping is concerned: its id, its
/// layer's name, its kind, and the text of a text entity (empty for the
/// other kinds). Its geometry is the drawing's concern, not the document's.
#[derive(Clone, Debug)]
pub struct Entity {
    pub id: u64,
    pub layer: String,
    pub kind: EntityKind,
    pub text: String,
}

/// An entity as values: id, layer, kind and text.
pub type EntityView = (u64, Seq<char>, EntityKind, Seq<char>);

pub open spec fn entity_view(e: Entity) -> EntityView {
    (e.id, e.layer@, e.kind, e.text@)
}

impl Entity {
    /// The entity's id.
    pub fn id(&self) -> (r: u64)
        ensures
            r == self.id,
    {
        self.id
    }

    /// The name of the entity's layer.
    pub fn layer(&self) -> (r: &str)
        ensures
            r@ == self.layer@,
    {
        self.layer.as_str()
    }

    /// The name that the interface shows for the entity's kind.
    pub fn kind(&self) -> (r: &'static str)
        ensures
            r@ == kind_label(self.kind),
    {
        self.kind.label()
    }

    /// Moves the entity to another layer.
    pub fn set_layer(&mut self, new_layer: &str)
        ensures
            entity_view(*final(self)) == (old(self).id, new_layer@, old(self).kind, old(self).text@),
    {
        self.layer = new_layer.to_string();
    }

    /// A copy of the entity.
    pub fn copy(&self) -> (r: Entity)
        ensures
            entity_view(r) == entity_view(*self),
    {
        Entity { id: self.id, layer: self.layer.clone(), kind: self.kind, text: self.text.clone() }
    }
}

/// A layout tab.
#[derive(Clone, Debug)]
pub struct Layout {
    pub name: String,
    pub kind: LayoutKind,
    pub paper_background: bool,
}

/// A viewport on a paper layout: its id, its layout and whether it is
/// locked.
#[derive(Clone, Debug)]
pub struct LayoutViewport {
    pub id: u64,
    pub layout: String,
    pub locked: bool,
}

/// A document: its format version and name, its layers and active layer,
/// its entities, the color and line type set on single entities, its layouts
/// and active layout, the paper layout of each entity not in model space,
/// its viewports, the files it keeps as references, its named views and
/// drawing sheets, and whether it changed since it was saved.
#[derive(Clone, Debug)]
pub struct Document {
    pub version: u32,
    pub name: String,
    pub layers: Vec<Layer>,
    pub active_layer_name: String,
    pub entities: Vec<Entity>,
    pub entity_colors: BTreeMap<u64, String>,
    pub entity_line_types: BTreeMap<u64, String>,
    pub active_layout: String,
    pub layouts: Vec<Layout>,
    pub entity_layouts: BTreeMap<u64, String>,
    pub layout_viewports: Vec<LayoutViewport>,
    pub imported_references: Vec<ImportedReference>,
    pub views: Vec<DrawingView>,
    pub sheets: Vec<DrawingSheet>,
    pub modified: bool,
}

/// A layer as values.
pub struct LayerState {
    pub name: Seq<char>,
    pub color: Seq<char>,
    pub visible: bool,
    pub locked: bool,
    pub line_type: Seq<char>,
    pub printable: bool,
}

pub open spec fn layer_state(l: Layer) -> LayerState {
    LayerState {
        name: l.name@,
        color: l.color@,
        visible: l.visible,
        locked: l.locked,
        line_type: l.line_type@,
        printable: l.printable,
    }
}

pub open spec fn layers_view(ls: Seq<Layer>) -> Seq<LayerState> {
    ls.map_values(|l: Layer| layer_state(l))
}

pub open spec fn entities_view(es: Seq<Entity>) -> Seq<EntityView> {
    es.map_values(|e: Entity| entity_view(e))
}

/// A layout as values.
pub struct LayoutState {
    pub name: Seq<char>,
    pub kind: LayoutKind,
    pub paper_background: bool,
}

pub open spec fn layout_state(l: Layout) -> LayoutState {
    LayoutState { name: l.name@, kind: l.kind, paper_background: l.paper_background }
}

pub open spec fn layouts_view(ls: Seq<Layout>) -> Seq<LayoutState> {
    ls.map_values(|l: Layout| layout_state(l))
}

pub open spec fn viewports_view(vs: Seq<LayoutViewport>) -> Seq<(u64, Seq<char>, bool)> {
    vs.map_values(|v: LayoutViewport| (v.id, v.layout@, v.locked))
}

/// A map to strings as a map to character sequences.
pub open spec fn str_map_view(m: Map<u64, String>) -> Map<u64, Seq<char>> {
    Map::new(|k: u64| m.dom().contains(k), |k: u64| m[k]@)
}

pub proof fn lemma_str_map_insert(m: Map<u64, String>, k: u64, v: String)
    ensures
        str_map_view(m.insert(k, v)) == str_map_view(m).insert(k, v@),
{
    assert(str_map_view(m.insert(k, v)) =~= str_map_view(m).insert(k, v@));
}

pub proof fn lemma_str_map_remove(m: Map<u64, String>, k: u64)
    ensures
        str_map_view(m.remove(k)) == str_map_view(m).remove(k),
{
    assert(str_map_view(m.remove(k)) =~= str_map_view(m).remove(k));
}

/// A document as values.
pub struct DocState {
    pub layers: Seq<LayerState>,
    pub active: Seq<char>,
    pub entities: Seq<EntityView>,
    pub colors: Map<u64, Seq<char>>,
    pub line_types: Map<u64, Seq<char>>,
    pub layouts: Seq<LayoutState>,
    pub active_layout: Seq<char>,
    pub entity_layouts: Map<u64, Seq<char>>,
    pub viewports: Seq<(u64, Seq<char>, bool)>,
    pub references: Seq<ReferenceView>,
    pub version: u32,
    pub name: Seq<char>,
    pub views: Seq<(Seq<char>, Seq<char>)>,
    pub sheets: Seq<(Seq<char>, Seq<char>, Seq<char>, Seq<char>)>,
}

pub open spec fn views_view(vs: Seq<DrawingView>) -> Seq<(Seq<char>, Seq<char>)> {
    vs.map_values(|v: DrawingView| (v.name@, v.view_type@))
}

pub open spec fn sheets_view(ss: Seq<DrawingSheet>) -> Seq<(Seq<char>, Seq<char>, Seq<char>, Seq<char>)> {
    ss.map_values(|s: DrawingSheet| (s.name@, s.format@, s.orientation@, s.projection@))
}

/// An imported reference as values: path, format, summary and warnings.
pub type ReferenceView = (Seq<char>, Seq<char>, Seq<char>, Seq<Seq<char>>);

pub open spec fn reference_state(r: ImportedReference) -> ReferenceView {
    (r.path@, r.format@, r.summary@, r.warnings@.map_values(|w: String| w@))
}

pub open spec fn references_view(rs: Seq<ImportedReference>) -> Seq<ReferenceView> {
    rs.map_values(|r: ImportedReference| reference_state(r))
}

pub open spec fn doc_state(d: Document) -> DocState {
    DocState {
        layers: layers_view(d.layers@),
        active: d.active_layer_name@,
        entities: entities_view(d.entities@),
        colors: str_map_view(d.entity_colors@),
        line_types: str_map_view(d.entity_line_types@),
        layouts: layouts_view(d.layouts@),
        active_layout: d.active_layout@,
        entity_layouts: str_map_view(d.entity_layouts@),
        viewports: viewports_view(d.layout_viewports@),
        references: references_view(d.imported_references@),
        version: d.version,
        name: d.name@,
        views: views_view(d.views@),
        sheets: sheets_view(d.sheets@),
    }
}

} // verus!
