//! DXF group-code processing: splitting a DXF text into (code, value) pairs,
//! finding sections, reading layouts and their owners, assigning entities to
//! layouts, mapping ACI colors, and cleaning MTEXT formatting codes.
//!
//! A DXF pair list is modelled by the sequence of its (code, value) views.
use vstd::prelude::*;

use crate::document::{layout_name, normalized_layout_name};
use crate::strmap::StrMap;
use crate::text::{
    lines, lines_of, chars_eq, chars_of, eq_ignore_case, lower_vec, owned, parse_i64, parse_i64_chars, push_char,
    string_of, string_of_range, trim, trim_bounds, upper, upper_vec,
};

verus! {

/// A pair list as character sequences.
pub open spec fn pairs_view(p: Seq<(String, String)>) -> Seq<(Seq<char>, Seq<char>)> {
    p.map_values(|e: (String, String)| (e.0@, e.1@))
}

// ---------------------------------------------------------------------------
// Lines and pairs
// ---------------------------------------------------------------------------

/// Consecutive lines taken two by two as (code, value), each trimmed; an odd
/// last line is dropped.
pub open spec fn pair_up(ls: Seq<Seq<char>>) -> Seq<(Seq<char>, Seq<char>)>
    decreases ls.len(),
{
    if ls.len() < 2 {
        seq![]
    } else {
        seq![(trim(ls[0]), trim(ls[1]))] + pair_up(ls.skip(2))
    }
}

/// The (code, value) pairs of a DXF text.
pub open spec fn dxf_pairs(data: Seq<char>) -> Seq<(Seq<char>, Seq<char>)> {
    pair_up(lines(data))
}

/// Splits a DXF text into its (code, value) pairs, each trimmed.
pub fn group_pairs(data: &str) -> (r: Vec<(String, String)>)
    ensures
        pairs_view(r@) == dxf_pairs(data@),
{
    let v = chars_of(data);
    let ls = lines_of(&v);
    let ghost lv = ls@.map_values(|l: Vec<char>| l@);
    let mut r: Vec<(String, String)> = Vec::new();
    let mut i: usize = 0;
    assert(lv.skip(0) == lv);
    while i + 1 < ls.len()
        invariant
            lv == ls@.map_values(|l: Vec<char>| l@),
            i <= ls.len(),
            i % 2 == 0,
            pairs_view(r@) + pair_up(lv.skip(i as int)) == pair_up(lv),
        decreases ls.len() - i,
    {
        let (a0, a1) = trim_bounds(&ls[i]);
        let (b0, b1) = trim_bounds(&ls[i + 1]);
        let code = string_of_range(&ls[i], a0, a1);
        let value = string_of_range(&ls[i + 1], b0, b1);
        proof {
            let rest = lv.skip(i as int);
            assert(rest[0] == ls@[i as int]@);
            assert(rest[1] == ls@[i + 1]@);
            assert(rest.skip(2) == lv.skip(i + 2));
            assert(pair_up(rest) == seq![(code@, value@)] + pair_up(lv.skip(i + 2)));
            assert(pairs_view(r@.push((code, value))) == pairs_view(r@).push((code@, value@)));
            assert(pairs_view(r@).push((code@, value@)) + pair_up(lv.skip(i + 2)) == pairs_view(r@)
                + pair_up(rest));
        }
        r.push((code, value));
        i += 2;
    }
    proof {
        assert(pair_up(lv.skip(i as int)) == Seq::<(Seq<char>, Seq<char>)>::empty());
        assert(pairs_view(r@) + Seq::<(Seq<char>, Seq<char>)>::empty() == pairs_view(r@));
    }
    r
}

// ---------------------------------------------------------------------------
// Looking values up
// ---------------------------------------------------------------------------

/// The value of the first pair with the given code.
pub open spec fn lookup(p: Seq<(Seq<char>, Seq<char>)>, code: Seq<char>) -> Option<Seq<char>>
    decreases p.len(),
{
    if p.len() == 0 {
        None
    } else if p[0].0 == code {
        Some(p[0].1)
    } else {
        lookup(p.drop_first(), code)
    }
}

/// The integer value of the first pair with the given code, if it parses.
pub open spec fn lookup_int(p: Seq<(Seq<char>, Seq<char>)>, code: Seq<char>) -> Option<i64> {
    match lookup(p, code) {
        Some(v) => parse_i64(v),
        None => None,
    }
}

pub proof fn lemma_lookup_skip(p: Seq<(Seq<char>, Seq<char>)>, code: Seq<char>, i: int)
    requires
        0 <= i <= p.len(),
        forall|j: int| 0 <= j < i ==> (#[trigger] p[j]).0 != code,
    ensures
        lookup(p, code) == lookup(p.skip(i), code),
    decreases i,
{
    if i > 0 {
        let t = p.drop_first();
        assert forall|j: int| 0 <= j < i - 1 implies (#[trigger] t[j]).0 != code by {
            assert(t[j] == p[j + 1]);
        }
        lemma_lookup_skip(t, code, i - 1);
        assert(t.skip(i - 1) == p.skip(i));
    } else {
        assert(p.skip(0) == p);
    }
}

/// Whether a string is exactly `lit`.
fn is_lit(s: &String, lit: &str) -> (r: bool)
    ensures
        r == (s@ == lit@),
{
    chars_eq(&chars_of(s.as_str()), &chars_of(lit))
}

/// Whether a string equals `lit` ignoring ASCII case.
fn is_lit_nocase(s: &String, lit: &str) -> (r: bool)
    ensures
        r == eq_ignore_case(s@, lit@),
{
    chars_eq(&lower_vec(&chars_of(s.as_str())), &lower_vec(&chars_of(lit)))
}

/// Position of the first pair with the given code.
fn find_code(pairs: &[(String, String)], code: &str) -> (r: Option<usize>)
    ensures
        match r {
            Some(i) => i < pairs@.len() && lookup(pairs_view(pairs@), code@) == Some(
                pairs@[i as int].1@,
            ),
            None => lookup(pairs_view(pairs@), code@).is_none(),
        },
{
    let ghost p = pairs_view(pairs@);
    let mut i: usize = 0;
    while i < pairs.len()
        invariant
            p == pairs_view(pairs@),
            i <= pairs.len(),
            forall|j: int| 0 <= j < i ==> (#[trigger] p[j]).0 != code@,
        decreases pairs.len() - i,
    {
        if is_lit(&pairs[i].0, code) {
            proof {
                lemma_lookup_skip(p, code@, i as int);
                assert(p.skip(i as int)[0] == p[i as int]);
            }
            return Some(i);
        }
        assert(p[i as int].0 == pairs@[i as int].0@);
        i += 1;
    }
    proof {
        lemma_lookup_skip(p, code@, i as int);
    }
    None
}

/// The value of the first pair with the given code.
pub fn text_value(pairs: &[(String, String)], code: &str) -> (r: Option<String>)
    ensures
        match r {
            Some(v) => lookup(pairs_view(pairs@), code@) == Some(v@),
            None => lookup(pairs_view(pairs@), code@).is_none(),
        },
{
    match find_code(pairs, code) {
        Some(i) => Some(pairs[i].1.clone()),
        None => None,
    }
}

/// The integer value of the first pair with the given code, if it parses.
pub fn integer_value(pairs: &[(String, String)], code: &str) -> (r: Option<i64>)
    ensures
        r == lookup_int(pairs_view(pairs@), code@),
{
    match find_code(pairs, code) {
        Some(i) => parse_i64_chars(&chars_of(pairs[i].1.as_str())),
        None => None,
    }
}

// ---------------------------------------------------------------------------
// Sections
// ---------------------------------------------------------------------------

pub open spec fn is_section_header(p: Seq<(Seq<char>, Seq<char>)>, i: int, name: Seq<char>) -> bool {
    &&& p[i].0 == "0"@
    &&& eq_ignore_case(p[i].1, "SECTION"@)
    &&& p[i + 1].0 == "2"@
    &&& eq_ignore_case(p[i + 1].1, name)
}

pub open spec fn is_endsec(e: (Seq<char>, Seq<char>)) -> bool {
    e.0 == "0"@ && eq_ignore_case(e.1, "ENDSEC"@)
}

/// The first index from `e` on that holds `ENDSEC`, or the last index when
/// none before it does.
pub open spec fn section_end(p: Seq<(Seq<char>, Seq<char>)>, e: int) -> int
    decreases p.len() - e,
{
    if e + 1 >= p.len() || is_endsec(p[e]) {
        e
    } else {
        section_end(p, e + 1)
    }
}

pub open spec fn section_from(p: Seq<(Seq<char>, Seq<char>)>, i: int, name: Seq<char>) -> Option<
    (int, int),
>
    decreases p.len() - i,
{
    if i < 0 || i + 3 >= p.len() {
        None
    } else if is_section_header(p, i, name) {
        Some((i + 2, section_end(p, i + 2)))
    } else {
        section_from(p, i + 1, name)
    }
}

/// The content range of the first section with the given name: it starts
/// after the `SECTION` and name pairs and ends at the next `ENDSEC` (or at
/// the last pair).
pub open spec fn section_range(p: Seq<(Seq<char>, Seq<char>)>, name: Seq<char>) -> Option<
    (int, int),
> {
    section_from(p, 0, name)
}

pub proof fn lemma_section_end_bounds(p: Seq<(Seq<char>, Seq<char>)>, e: int)
    requires
        0 <= e < p.len(),
    ensures
        e <= section_end(p, e) < p.len(),
    decreases p.len() - e,
{
    if !(e + 1 >= p.len() || is_endsec(p[e])) {
        lemma_section_end_bounds(p, e + 1);
    }
}

/// A section found lies within the pairs.
pub proof fn lemma_section_from_bounds(p: Seq<(Seq<char>, Seq<char>)>, i: int, name: Seq<char>)
    ensures
        match section_from(p, i, name) {
            Some((s, e)) => 0 <= s <= e < p.len(),
            None => true,
        },
    decreases p.len() - i,
{
    if i < 0 || i + 3 >= p.len() {
    } else if is_section_header(p, i, name) {
        lemma_section_end_bounds(p, i + 2);
    } else {
        lemma_section_from_bounds(p, i + 1, name);
    }
}

pub fn section_bounds(pairs: &[(String, String)], section_name: &str) -> (r: Option<(usize, usize)>)
    ensures
        match r {
            Some((a, b)) => section_range(pairs_view(pairs@), section_name@) == Some(
                (a as int, b as int),
            ),
            None => section_range(pairs_view(pairs@), section_name@).is_none(),
        },
{
    let ghost p = pairs_view(pairs@);
    let mut i: usize = 0;
    while pairs.len() > 3 && i < pairs.len() - 3
        invariant
            p == pairs_view(pairs@),
            p.len() == pairs.len(),
            section_from(p, 0, section_name@) == section_from(p, i as int, section_name@),
        decreases pairs.len() - i,
    {
        proof {
            assert(p[i as int].0 == pairs@[i as int].0@);
            assert(p[i as int].1 == pairs@[i as int].1@);
            assert(p[i + 1].0 == pairs@[i + 1].0@);
            assert(p[i + 1].1 == pairs@[i + 1].1@);
        }
        if is_lit(&pairs[i].0, "0") && is_lit_nocase(&pairs[i].1, "SECTION") && is_lit(
            &pairs[i + 1].0,
            "2",
        ) && is_lit_nocase(&pairs[i + 1].1, section_name) {
            let start = i + 2;
            let mut end = start;
            while end + 1 < pairs.len()
                invariant
                    p == pairs_view(pairs@),
                    p.len() == pairs.len(),
                    start <= end < pairs.len(),
                    section_end(p, start as int) == section_end(p, end as int),
                ensures
                    start <= end < pairs.len(),
                    section_end(p, start as int) == end,
                decreases pairs.len() - end,
            {
                proof {
                    assert(p[end as int].0 == pairs@[end as int].0@);
                    assert(p[end as int].1 == pairs@[end as int].1@);
                }
                if is_lit(&pairs[end].0, "0") && is_lit_nocase(&pairs[end].1, "ENDSEC") {
                    break;
                }
                end += 1;
            }
            return Some((start, end));
        }
        i += 1;
    }
    None
}

// ---------------------------------------------------------------------------
// Text values and colors
// ---------------------------------------------------------------------------

/// The values of all pairs with code `1` or `3`, concatenated in order.
pub open spec fn joined_text(p: Seq<(Seq<char>, Seq<char>)>) -> Seq<char>
    decreases p.len(),
{
    if p.len() == 0 {
        seq![]
    } else {
        let prev = joined_text(p.drop_last());
        if p.last().0 == "1"@ || p.last().0 == "3"@ {
            prev + p.last().1
        } else {
            prev
        }
    }
}

/// The text of an entity, assembled from its `1` and `3` pairs.
pub fn joined_text_value(pairs: &[(String, String)]) -> (r: String)
    ensures
        r@ == joined_text(pairs_view(pairs@)),
{
    let ghost p = pairs_view(pairs@);
    let mut out = String::new();
    let mut i: usize = 0;
    while i < pairs.len()
        invariant
            p == pairs_view(pairs@),
            i <= pairs.len(),
            out@ == joined_text(p.take(i as int)),
        decreases pairs.len() - i,
    {
        proof {
            assert(p.take(i + 1).drop_last() == p.take(i as int));
            assert(p.take(i + 1).last() == p[i as int]);
        }
        if is_lit(&pairs[i].0, "1") || is_lit(&pairs[i].0, "3") {
            let v = chars_of(pairs[i].1.as_str());
            let mut j: usize = 0;
            let ghost before = out@;
            while j < v.len()
                invariant
                    j <= v.len(),
                    out@ == before + v@.take(j as int),
                decreases v.len() - j,
            {
                push_char(&mut out, v[j]);
                assert(v@.take(j + 1) == v@.take(j as int).push(v@[j as int]));
                j += 1;
            }
            assert(v@.take(v.len() as int) == v@);
        }
        i += 1;
    }
    assert(p.take(pairs.len() as int) == p);
    out
}

/// The display color of an AutoCAD color index (group code 62).
pub open spec fn aci_color(n: i64) -> Option<Seq<char>> {
    if n == 1 {
        Some("#ef4444"@)
    } else if n == 2 {
        Some("#facc15"@)
    } else if n == 3 {
        Some("#22c55e"@)
    } else if n == 4 {
        Some("#38bdf8"@)
    } else if n == 5 {
        Some("#2563eb"@)
    } else if n == 6 {
        Some("#d946ef"@)
    } else if n == 7 {
        Some("#d1d5db"@)
    } else if n == 8 || n == 9 {
        Some("#6b7280"@)
    } else {
        None
    }
}

/// The AutoCAD color index table: index 1 red `#ef4444`, 2 yellow
/// `#facc15`, 3 green `#22c55e`, 4 cyan `#38bdf8`, 5 blue `#2563eb`, 6
/// magenta `#d946ef`, 7 `#d1d5db`, 8 and 9 grey `#6b7280`, and no color for
/// any other index; the indices 1 to 7 give seven different colors. An
/// entity's color is the one its group 62 names.
pub proof fn law_aci_color_table(p: Seq<(Seq<char>, Seq<char>)>, n: i64, m: i64)
    ensures
        n == 1 ==> aci_color(n) == Some("#ef4444"@),
        n == 2 ==> aci_color(n) == Some("#facc15"@),
        n == 3 ==> aci_color(n) == Some("#22c55e"@),
        n == 4 ==> aci_color(n) == Some("#38bdf8"@),
        n == 5 ==> aci_color(n) == Some("#2563eb"@),
        n == 6 ==> aci_color(n) == Some("#d946ef"@),
        n == 7 ==> aci_color(n) == Some("#d1d5db"@),
        n == 8 || n == 9 ==> aci_color(n) == Some("#6b7280"@),
        aci_color(n).is_some() <==> 1 <= n <= 9,
        1 <= n <= 7 && 1 <= m <= 7 && n != m ==> aci_color(n) != aci_color(m),
        lookup_int(p, "62"@) == Some(5i64) ==> aci_color(lookup_int(p, "62"@).unwrap()) == Some(
            "#2563eb"@,
        ),
{
    reveal_strlit("#ef4444");
    reveal_strlit("#facc15");
    reveal_strlit("#22c55e");
    reveal_strlit("#38bdf8");
    reveal_strlit("#2563eb");
    reveal_strlit("#d946ef");
    reveal_strlit("#d1d5db");
    if 1 <= n <= 7 && 1 <= m <= 7 && n != m {
        let a = aci_color(n).unwrap();
        let b = aci_color(m).unwrap();
        assert(a[1] != b[1] || a[2] != b[2]);
    }
}

/// The color that an entity's group code 62 names.
pub fn dxf_color_value(pairs: &[(String, String)]) -> (r: Option<&'static str>)
    ensures
        match r {
            Some(c) => lookup_int(pairs_view(pairs@), "62"@).is_some() && aci_color(
                lookup_int(pairs_view(pairs@), "62"@).unwrap(),
            ) == Some(c@),
            None => match lookup_int(pairs_view(pairs@), "62"@) {
                Some(n) => aci_color(n).is_none(),
                None => true,
            },
        },
{
    let n = match integer_value(pairs, "62") {
        Some(n) => n,
        None => return None,
    };
    if n == 1 {
        Some("#ef4444")
    } else if n == 2 {
        Some("#facc15")
    } else if n == 3 {
        Some("#22c55e")
    } else if n == 4 {
        Some("#38bdf8")
    } else if n == 5 {
        Some("#2563eb")
    } else if n == 6 {
        Some("#d946ef")
    } else if n == 7 {
        Some("#d1d5db")
    } else if n == 8 || n == 9 {
        Some("#6b7280")
    } else {
        None
    }
}

// ---------------------------------------------------------------------------
// Entity layouts
// ---------------------------------------------------------------------------

/// The layout an entity belongs to: its group 410 when present; else the
/// layout that owns its owner handle (group 330); else, for a paper-space
/// entity (group 67 = 1), the hinted layout; else the model space.
pub open spec fn entity_layout(
    p: Seq<(Seq<char>, Seq<char>)>,
    owners: Map<Seq<char>, Seq<char>>,
    hint: Option<Seq<char>>,
) -> Seq<char> {
    match lookup(p, "410"@) {
        Some(l) => layout_name(l),
        None => {
            let by_owner = match lookup(p, "330"@) {
                Some(o) => if owners.contains_key(upper(o)) {
                    Some(owners[upper(o)])
                } else {
                    None
                },
                None => None,
            };
            match by_owner {
                Some(l) => layout_name(l),
                None => if lookup_int(p, "67"@) == Some(1i64) && hint.is_some() {
                    layout_name(hint.unwrap())
                } else {
                    "Model"@
                },
            }
        },
    }
}

/// The layout an entity belongs to.
pub fn entity_layout_name(
    pairs: &[(String, String)],
    layout_owners: &StrMap,
    paper_layout_hint: Option<&str>,
) -> (r: String)
    ensures
        r@ == entity_layout(
            pairs_view(pairs@),
            layout_owners@,
            match paper_layout_hint {
                Some(h) => Some(h@),
                None => None,
            },
        ),
{
    if let Some(layout) = text_value(pairs, "410") {
        return normalized_layout_name(layout.as_str());
    }
    if let Some(owner) = text_value(pairs, "330") {
        let key = string_of(&upper_vec(&chars_of(owner.as_str())));
        if let Some(layout) = layout_owners.get(key.as_str()) {
            return normalized_layout_name(layout.as_str());
        }
    }
    if integer_value(pairs, "67") == Some(1i64) {
        if let Some(layout) = paper_layout_hint {
            return normalized_layout_name(layout);
        }
    }
    owned("Model")
}

// ---------------------------------------------------------------------------
// Layout objects
// ---------------------------------------------------------------------------

pub open spec fn is_layout_marker(e: (Seq<char>, Seq<char>)) -> bool {
    e.0 == "0"@ && eq_ignore_case(e.1, "LAYOUT"@)
}

/// The end of the pairs that follow an object start at `j`: the first index
/// from `j` on whose code is `0`, or the last index.
pub open spec fn chunk_end(p: Seq<(Seq<char>, Seq<char>)>, j: int) -> int
    decreases p.len() - j,
{
    if j < 0 || j + 1 >= p.len() || p[j].0 == "0"@ {
        j
    } else {
        chunk_end(p, j + 1)
    }
}

pub proof fn lemma_chunk_end_bounds(p: Seq<(Seq<char>, Seq<char>)>, j: int)
    ensures
        chunk_end(p, j) >= j,
        0 <= j < p.len() ==> chunk_end(p, j) < p.len(),
    decreases p.len() - j,
{
    if !(j < 0 || j + 1 >= p.len() || p[j].0 == "0"@) {
        lemma_chunk_end_bounds(p, j + 1);
    }
}

/// The pairs of every `LAYOUT` object from index `i` on, in order. The last
/// pair of the list never starts or belongs to an object.
pub open spec fn layout_chunks_from(p: Seq<(Seq<char>, Seq<char>)>, i: int) -> Seq<
    Seq<(Seq<char>, Seq<char>)>,
>
    decreases p.len() - i,
{
    if i < 0 || i + 1 >= p.len() {
        seq![]
    } else if !is_layout_marker(p[i]) {
        layout_chunks_from(p, i + 1)
    } else {
        let e = chunk_end(p, i + 1);
        proof {
            lemma_chunk_end_bounds(p, i + 1);
        }
        seq![p.subrange(i + 1, e)] + layout_chunks_from(p, e)
    }
}

/// The pairs after the first `100`/`AcDbLayout` pair, if there is one.
pub open spec fn layout_section(c: Seq<(Seq<char>, Seq<char>)>) -> Option<
    Seq<(Seq<char>, Seq<char>)>,
>
    decreases c.len(),
{
    if c.len() == 0 {
        None
    } else if c[0].0 == "100"@ && eq_ignore_case(c[0].1, "AcDbLayout"@) {
        Some(c.drop_first())
    } else {
        layout_section(c.drop_first())
    }
}

/// The trimmed value of the first pair with the given code whose trimmed
/// value is not empty.
pub open spec fn first_trimmed(c: Seq<(Seq<char>, Seq<char>)>, code: Seq<char>) -> Option<
    Seq<char>,
>
    decreases c.len(),
{
    if c.len() == 0 {
        None
    } else if c[0].0 == code && trim(c[0].1).len() > 0 {
        Some(trim(c[0].1))
    } else {
        first_trimmed(c.drop_first(), code)
    }
}

/// The trimmed value of the first pair with code `1` or `2` whose trimmed
/// value is not empty.
pub open spec fn first_name(c: Seq<(Seq<char>, Seq<char>)>) -> Option<Seq<char>>
    decreases c.len(),
{
    if c.len() == 0 {
        None
    } else if (c[0].0 == "1"@ || c[0].0 == "2"@) && trim(c[0].1).len() > 0 {
        Some(trim(c[0].1))
    } else {
        first_name(c.drop_first())
    }
}

/// The trimmed value of the first pair with code `2` whose trimmed value is
/// not empty and does not start with `*` (an anonymous block).
pub open spec fn first_block_name(c: Seq<(Seq<char>, Seq<char>)>) -> Option<Seq<char>>
    decreases c.len(),
{
    if c.len() == 0 {
        None
    } else if c[0].0 == "2"@ && trim(c[0].1).len() > 0 && trim(c[0].1)[0] != '*' {
        Some(trim(c[0].1))
    } else {
        first_block_name(c.drop_first())
    }
}

/// The tab name of a `LAYOUT` object: its group 1 (the tab name), else its
/// named block (group 2), both read after the `AcDbLayout` marker.
pub open spec fn layout_tab_name(c: Seq<(Seq<char>, Seq<char>)>) -> Option<Seq<char>> {
    match layout_section(c) {
        None => None,
        Some(rest) => match first_trimmed(rest, "1"@) {
            Some(t) => Some(t),
            None => first_block_name(rest),
        },
    }
}

/// The owner handle (group 330, upper case) and name of a `LAYOUT` object.
pub open spec fn layout_owner_entry(c: Seq<(Seq<char>, Seq<char>)>) -> Option<(Seq<char>, Seq<char>)> {
    match layout_section(c) {
        None => None,
        Some(rest) => match (first_trimmed(rest, "330"@), first_name(rest)) {
            (Some(o), Some(n)) => Some((upper(o), layout_name(n))),
            _ => None,
        },
    }
}

/// The normalized tab names of the objects, in order, objects without one
/// skipped.
pub open spec fn chunk_names(cs: Seq<Seq<(Seq<char>, Seq<char>)>>) -> Seq<Seq<char>>
    decreases cs.len(),
{
    if cs.len() == 0 {
        seq![]
    } else {
        let prev = chunk_names(cs.drop_last());
        match layout_tab_name(cs.last()) {
            Some(t) => prev.push(layout_name(t)),
            None => prev,
        }
    }
}

/// `s` with every element after its first occurrence removed.
pub open spec fn dedup(s: Seq<Seq<char>>) -> Seq<Seq<char>>
    decreases s.len(),
{
    if s.len() == 0 {
        seq![]
    } else {
        let d = dedup(s.drop_last());
        if d.contains(s.last()) {
            d
        } else {
            d.push(s.last())
        }
    }
}

/// The layout names of a DXF file: the distinct tab names of its `LAYOUT`
/// objects in order of appearance, with `Model` put first when missing.
pub open spec fn layout_names(p: Seq<(Seq<char>, Seq<char>)>) -> Seq<Seq<char>> {
    let n = dedup(chunk_names(layout_chunks_from(p, 0)));
    if n.contains("Model"@) {
        n
    } else {
        seq!["Model"@] + n
    }
}

/// The layout of each owner handle; a later object replaces an earlier one
/// with the same handle.
pub open spec fn chunk_owners(cs: Seq<Seq<(Seq<char>, Seq<char>)>>) -> Map<Seq<char>, Seq<char>>
    decreases cs.len(),
{
    if cs.len() == 0 {
        Map::empty()
    } else {
        let prev = chunk_owners(cs.drop_last());
        match layout_owner_entry(cs.last()) {
            Some((o, n)) => prev.insert(o, n),
            None => prev,
        }
    }
}

/// The index of the first pair in `pairs[from..to]` that opens the
/// `AcDbLayout` section, or `to`.
fn find_layout_section(pairs: &[(String, String)], from: usize, to: usize) -> (r: usize)
    requires
        from <= to <= pairs@.len(),
    ensures
        from <= r <= to,
        r == to ==> layout_section(pairs_view(pairs@).subrange(from as int, to as int)).is_none(),
        r < to ==> layout_section(pairs_view(pairs@).subrange(from as int, to as int)) == Some(
            pairs_view(pairs@).subrange(r + 1, to as int),
        ),
{
    let ghost p = pairs_view(pairs@);
    let mut j = from;
    while j < to
        invariant
            p == pairs_view(pairs@),
            from <= j <= to <= p.len(),
            layout_section(p.subrange(from as int, to as int)) == layout_section(
                p.subrange(j as int, to as int),
            ),
        decreases to - j,
    {
        let ghost c = p.subrange(j as int, to as int);
        proof {
            assert(c[0] == p[j as int]);
            assert(c.drop_first() == p.subrange(j + 1, to as int));
        }
        if is_lit(&pairs[j].0, "100") && is_lit_nocase(&pairs[j].1, "AcDbLayout") {
            return j;
        }
        j += 1;
    }
    j
}

/// The first trimmed non-empty value in `pairs[from..to]` whose code passes:
/// `1` when `which` is 0, `330` when 1, `1` or `2` when 2, and for 3 code `2`
/// with a value not starting with `*`.
fn find_value(pairs: &[(String, String)], from: usize, to: usize, which: u8) -> (r: Option<String>)
    requires
        from <= to <= pairs@.len(),
        which <= 3,
    ensures
        ({
            let c = pairs_view(pairs@).subrange(from as int, to as int);
            let expected = if which == 0 {
                first_trimmed(c, "1"@)
            } else if which == 1 {
                first_trimmed(c, "330"@)
            } else if which == 2 {
                first_name(c)
            } else {
                first_block_name(c)
            };
            match r {
                Some(v) => expected == Some(v@),
                None => expected.is_none(),
            }
        }),
{
    let ghost p = pairs_view(pairs@);
    let mut j = from;
    while j < to
        invariant
            p == pairs_view(pairs@),
            from <= j <= to <= p.len(),
            which <= 3,
            which == 0 ==> first_trimmed(p.subrange(from as int, to as int), "1"@) == first_trimmed(
                p.subrange(j as int, to as int),
                "1"@,
            ),
            which == 1 ==> first_trimmed(p.subrange(from as int, to as int), "330"@)
                == first_trimmed(p.subrange(j as int, to as int), "330"@),
            which == 2 ==> first_name(p.subrange(from as int, to as int)) == first_name(
                p.subrange(j as int, to as int),
            ),
            which == 3 ==> first_block_name(p.subrange(from as int, to as int)) == first_block_name(
                p.subrange(j as int, to as int),
            ),
        decreases to - j,
    {
        let ghost c = p.subrange(j as int, to as int);
        proof {
            assert(c[0] == p[j as int]);
            assert(c.drop_first() == p.subrange(j + 1, to as int));
            assert(c[0].0 == pairs@[j as int].0@);
            assert(c[0].1 == pairs@[j as int].1@);
        }
        let code = &pairs[j].0;
        let code_ok = if which == 0 {
            is_lit(code, "1")
        } else if which == 1 {
            is_lit(code, "330")
        } else if which == 2 {
            is_lit(code, "1") || is_lit(code, "2")
        } else {
            is_lit(code, "2")
        };
        if code_ok {
            let v = chars_of(pairs[j].1.as_str());
            let (a, b) = trim_bounds(&v);
            if a < b && (which != 3 || v[a] != '*') {
                proof {
                    assert(trim(c[0].1)[0] == v@[a as int]);
                }
                return Some(string_of_range(&v, a, b));
            }
            proof {
                if a < b {
                    assert(trim(c[0].1)[0] == v@[a as int]);
                }
            }
        }
        j += 1;
    }
    None
}

/// The tab name of the `LAYOUT` object made of `pairs[from..to]`.
fn tab_name_in(pairs: &[(String, String)], from: usize, to: usize) -> (r: Option<String>)
    requires
        from <= to <= pairs@.len(),
    ensures
        match r {
            Some(v) => layout_tab_name(pairs_view(pairs@).subrange(from as int, to as int)) == Some(
                v@,
            ),
            None => layout_tab_name(pairs_view(pairs@).subrange(from as int, to as int)).is_none(),
        },
{
    let m = find_layout_section(pairs, from, to);
    if m == to {
        return None;
    }
    match find_value(pairs, m + 1, to, 0) {
        Some(t) => Some(t),
        None => find_value(pairs, m + 1, to, 3),
    }
}

/// The tab name of a `LAYOUT` object: group 1, else a named block (group 2),
/// read after the `AcDbLayout` marker.
pub fn layout_tab_name_from_chunk(chunk: &[(String, String)]) -> (r: Option<String>)
    ensures
        match r {
            Some(v) => layout_tab_name(pairs_view(chunk@)) == Some(v@),
            None => layout_tab_name(pairs_view(chunk@)).is_none(),
        },
{
    let r = tab_name_in(chunk, 0, chunk.len());
    assert(pairs_view(chunk@).subrange(0, chunk@.len() as int) == pairs_view(chunk@));
    r
}

/// The owner entry of the `LAYOUT` object made of `pairs[from..to]`.
fn owner_entry_in(pairs: &[(String, String)], from: usize, to: usize) -> (r: Option<(String, String)>)
    requires
        from <= to <= pairs@.len(),
    ensures
        match r {
            Some((o, n)) => layout_owner_entry(pairs_view(pairs@).subrange(from as int, to as int))
                == Some((o@, n@)),
            None => layout_owner_entry(
                pairs_view(pairs@).subrange(from as int, to as int),
            ).is_none(),
        },
{
    let m = find_layout_section(pairs, from, to);
    if m == to {
        return None;
    }
    let owner = find_value(pairs, m + 1, to, 1);
    let name = find_value(pairs, m + 1, to, 2);
    match (owner, name) {
        (Some(o), Some(n)) => {
            let key = string_of(&upper_vec(&chars_of(o.as_str())));
            Some((key, normalized_layout_name(n.as_str())))
        },
        _ => None,
    }
}

/// Whether `names` already holds `name`.
fn holds_name(names: &Vec<String>, name: &String) -> (r: bool)
    ensures
        r == names@.map_values(|s: String| s@).contains(name@),
{
    let ghost nv = names@.map_values(|s: String| s@);
    let key = chars_of(name.as_str());
    let mut i: usize = 0;
    while i < names.len()
        invariant
            nv == names@.map_values(|s: String| s@),
            key@ == name@,
            i <= names.len(),
            forall|j: int| 0 <= j < i ==> nv[j] != name@,
        decreases names.len() - i,
    {
        assert(nv[i as int] == names@[i as int]@);
        let current = chars_of(names[i].as_str());
        assert(current@ == names@[i as int]@);
        if chars_eq(&current, &key) {
            assert(nv[i as int] == name@);
            return true;
        }
        i += 1;
    }
    false
}

/// The index where the `LAYOUT` object starting at `start` ends.
fn scan_chunk_end(pairs: &[(String, String)], start: usize) -> (r: usize)
    requires
        start < pairs@.len(),
    ensures
        r == chunk_end(pairs_view(pairs@), start as int),
        start <= r < pairs@.len(),
{
    let ghost p = pairs_view(pairs@);
    let mut i = start;
    while i < pairs.len() - 1 && !is_lit(&pairs[i].0, "0")
        invariant
            p == pairs_view(pairs@),
            start <= i < pairs@.len(),
            chunk_end(p, start as int) == chunk_end(p, i as int),
        decreases pairs.len() - i,
    {
        assert(p[i as int].0 == pairs@[i as int].0@);
        i += 1;
    }
    assert(p[i as int].0 == pairs@[i as int].0@);
    i
}

/// The distinct layout tab names of a DXF file in order of appearance, with
/// `Model` first when no object names it.
pub fn detect_layout_names(pairs: &[(String, String)]) -> (r: Vec<String>)
    ensures
        r@.map_values(|s: String| s@) == layout_names(pairs_view(pairs@)),
{
    let ghost p = pairs_view(pairs@);
    let mut names: Vec<String> = Vec::new();
    let ghost mut done: Seq<Seq<(Seq<char>, Seq<char>)>> = seq![];
    let mut i: usize = 0;
    while pairs.len() > 0 && i < pairs.len() - 1
        invariant
            p == pairs_view(pairs@),
            p.len() == pairs.len(),
            i < pairs.len() || pairs.len() == 0,
            done + layout_chunks_from(p, i as int) == layout_chunks_from(p, 0),
            names@.map_values(|s: String| s@) == dedup(chunk_names(done)),
        decreases pairs.len() - i,
    {
        proof {
            assert(p[i as int].0 == pairs@[i as int].0@);
            assert(p[i as int].1 == pairs@[i as int].1@);
        }
        if !(is_lit(&pairs[i].0, "0") && is_lit_nocase(&pairs[i].1, "LAYOUT")) {
            i += 1;
            continue;
        }
        let start = i + 1;
        let end = scan_chunk_end(pairs, start);
        let ghost chunk = p.subrange(start as int, end as int);
        proof {
            assert(layout_chunks_from(p, i as int) == seq![chunk] + layout_chunks_from(p, end as int));
            assert(done.push(chunk) + layout_chunks_from(p, end as int) == done + layout_chunks_from(
                p,
                i as int,
            ));
            assert(done.push(chunk).drop_last() == done);
        }
        if let Some(name) = tab_name_in(pairs, start, end) {
            let name = normalized_layout_name(name.as_str());
            if !holds_name(&names, &name) {
                proof {
                    let nv = names@.map_values(|s: String| s@);
                    assert(names@.push(name).map_values(|s: String| s@) == nv.push(name@));
                    let cn = chunk_names(done.push(chunk));
                    assert(cn == chunk_names(done).push(name@));
                    assert(cn.drop_last() == chunk_names(done));
                }
                names.push(name);
            } else {
                proof {
                    let cn = chunk_names(done.push(chunk));
                    assert(cn == chunk_names(done).push(name@));
                    assert(cn.drop_last() == chunk_names(done));
                }
            }
        } else {
            proof {
                assert(chunk_names(done.push(chunk)) == chunk_names(done));
            }
        }
        proof {
            done = done.push(chunk);
        }
        i = end;
    }
    proof {
        assert(layout_chunks_from(p, i as int) == Seq::<Seq<(Seq<char>, Seq<char>)>>::empty());
        assert(done + Seq::<Seq<(Seq<char>, Seq<char>)>>::empty() == done);
    }
    let model = owned("Model");
    if !holds_name(&names, &model) {
        let mut out: Vec<String> = Vec::new();
        out.push(model);
        let ghost nv = names@.map_values(|s: String| s@);
        let mut k: usize = 0;
        while k < names.len()
            invariant
                nv == names@.map_values(|s: String| s@),
                k <= names.len(),
                out@.map_values(|s: String| s@) == seq!["Model"@] + nv.take(k as int),
            decreases names.len() - k,
        {
            let item = names[k].clone();
            proof {
                assert(item@ == nv[k as int]);
                assert(out@.push(item).map_values(|s: String| s@) == out@.map_values(|s: String| s@).push(item@));
                assert(nv.take(k + 1) == nv.take(k as int).push(nv[k as int]));
            }
            out.push(item);
            k += 1;
        }
        assert(nv.take(names.len() as int) == nv);
        return out;
    }
    names
}

/// The layout of each owner handle named by the `LAYOUT` objects of a DXF
/// file.
pub fn detect_layout_owner_map(pairs: &[(String, String)]) -> (r: StrMap)
    ensures
        r@ == chunk_owners(layout_chunks_from(pairs_view(pairs@), 0)),
{
    let ghost p = pairs_view(pairs@);
    let mut owners = StrMap::new();
    let ghost mut done: Seq<Seq<(Seq<char>, Seq<char>)>> = seq![];
    let mut i: usize = 0;
    while pairs.len() > 0 && i < pairs.len() - 1
        invariant
            p == pairs_view(pairs@),
            p.len() == pairs.len(),
            i < pairs.len() || pairs.len() == 0,
            done + layout_chunks_from(p, i as int) == layout_chunks_from(p, 0),
            owners@ == chunk_owners(done),
        decreases pairs.len() - i,
    {
        proof {
            assert(p[i as int].0 == pairs@[i as int].0@);
            assert(p[i as int].1 == pairs@[i as int].1@);
        }
        if !(is_lit(&pairs[i].0, "0") && is_lit_nocase(&pairs[i].1, "LAYOUT")) {
            i += 1;
            continue;
        }
        let start = i + 1;
        let end = scan_chunk_end(pairs, start);
        let ghost chunk = p.subrange(start as int, end as int);
        proof {
            assert(layout_chunks_from(p, i as int) == seq![chunk] + layout_chunks_from(p, end as int));
            assert(done.push(chunk) + layout_chunks_from(p, end as int) == done + layout_chunks_from(
                p,
                i as int,
            ));
            assert(done.push(chunk).drop_last() == done);
        }
        if let Some((owner, name)) = owner_entry_in(pairs, start, end) {
            owners.insert(owner, name);
        }
        proof {
            done = done.push(chunk);
        }
        i = end;
    }
    proof {
        assert(layout_chunks_from(p, i as int) == Seq::<Seq<(Seq<char>, Seq<char>)>>::empty());
        assert(done + Seq::<Seq<(Seq<char>, Seq<char>)>>::empty() == done);
    }
    owners
}

// ---------------------------------------------------------------------------
// MTEXT formatting codes
// ---------------------------------------------------------------------------

/// Index of the first `;` in `s`, or its length.
pub open spec fn semi_index(s: Seq<char>) -> nat
    decreases s.len(),
{
    if s.len() == 0 || s[0] == ';' {
        0
    } else {
        1 + semi_index(s.drop_first())
    }
}

pub proof fn lemma_semi_index(s: Seq<char>)
    ensures
        semi_index(s) <= s.len(),
        forall|i: int| 0 <= i < semi_index(s) ==> #[trigger] s[i] != ';',
        semi_index(s) < s.len() ==> s[semi_index(s) as int] == ';',
    decreases s.len(),
{
    if s.len() > 0 && s[0] != ';' {
        lemma_semi_index(s.drop_first());
        assert forall|i: int| 0 <= i < semi_index(s) implies #[trigger] s[i] != ';' by {
            if i > 0 {
                assert(s[i] == s.drop_first()[i - 1]);
            }
        }
    }
}

/// What follows the parameter of a formatting code: the text after the
/// first `;`, or nothing when there is none.
pub open spec fn after_semi(s: Seq<char>) -> Seq<char> {
    let j = semi_index(s);
    if j < s.len() {
        s.skip(j + 1 as int)
    } else {
        s.skip(j as int)
    }
}

/// Stacked-fraction separators `#` and `^` written as `/`.
pub open spec fn slashes(s: Seq<char>) -> Seq<char> {
    s.map_values(|c: char| if c == '#' || c == '^' { '/' } else { c })
}

/// MTEXT with its formatting removed: braces dropped; `\P` and `\~` become a
/// space; `\\`, `\{`, `\}` their character; `\L \l \O \o \K \k` dropped;
/// `\S...;` gives its fraction with `/`; any other letter code is dropped
/// with its parameter up to `;`; any other escaped character is kept; a
/// trailing backslash ends the text.
pub open spec fn mtext_plain(s: Seq<char>) -> Seq<char>
    decreases s.len(),
{
    if s.len() == 0 {
        seq![]
    } else if s[0] == '{' || s[0] == '}' {
        mtext_plain(s.drop_first())
    } else if s[0] != '\\' {
        seq![s[0]] + mtext_plain(s.drop_first())
    } else if s.len() == 1 {
        seq![]
    } else {
        let cmd = s[1];
        let rest = s.skip(2);
        proof {
            lemma_semi_index(rest);
        }
        if cmd == 'P' || cmd == '~' {
            seq![' '] + mtext_plain(rest)
        } else if cmd == '\\' || cmd == '{' || cmd == '}' {
            seq![cmd] + mtext_plain(rest)
        } else if cmd == 'L' || cmd == 'l' || cmd == 'O' || cmd == 'o' || cmd == 'K' || cmd == 'k' {
            mtext_plain(rest)
        } else if cmd == 'S' || cmd == 's' {
            slashes(rest.take(semi_index(rest) as int)) + mtext_plain(after_semi(rest))
        } else if crate::text::is_ascii_alpha(cmd) {
            mtext_plain(after_semi(rest))
        } else {
            seq![cmd] + mtext_plain(rest)
        }
    }
}

/// `s` with every non-overlapping occurrence of `pat`, from left to right,
/// replaced by `rep` (`str::replace`, for a non-empty `pat`).
pub open spec fn replace_all(s: Seq<char>, pat: Seq<char>, rep: Seq<char>) -> Seq<char>
    decreases s.len(),
{
    if pat.len() == 0 || s.len() < pat.len() {
        s
    } else if s.take(pat.len() as int) == pat {
        rep + replace_all(s.skip(pat.len() as int), pat, rep)
    } else {
        seq![s[0]] + replace_all(s.drop_first(), pat, rep)
    }
}

/// The words joined by single spaces.
pub open spec fn join_space(ws: Seq<Seq<char>>) -> Seq<char>
    decreases ws.len(),
{
    if ws.len() == 0 {
        seq![]
    } else if ws.len() == 1 {
        ws[0]
    } else {
        join_space(ws.drop_last()) + seq![' '] + ws.last()
    }
}

/// The AutoCAD `%%` symbol codes spelled out.
pub open spec fn spell_symbols(s: Seq<char>) -> Seq<char> {
    let a = replace_all(s, "%%c"@, "diameter "@);
    let b = replace_all(a, "%%C"@, "diameter "@);
    let c = replace_all(b, "%%d"@, "deg"@);
    let d = replace_all(c, "%%D"@, "deg"@);
    let e = replace_all(d, "%%p"@, "+/-"@);
    replace_all(e, "%%P"@, "+/-"@)
}

/// Plain text of a DXF text value: formatting removed, symbols spelled out,
/// and runs of whitespace collapsed to single spaces with none at the ends.
pub open spec fn dxf_text(raw: Seq<char>) -> Seq<char> {
    join_space(crate::text::words(spell_symbols(mtext_plain(raw))))
}

fn mtext_plain_vec(v: &Vec<char>) -> (r: Vec<char>)
    ensures
        r@ == mtext_plain(v@),
{
    let n = v.len();
    let mut out: Vec<char> = Vec::new();
    let mut i: usize = 0;
    assert(v@.skip(0) == v@);
    while i < n
        invariant
            n == v.len(),
            i <= n,
            out@ + mtext_plain(v@.skip(i as int)) == mtext_plain(v@),
        decreases n - i,
    {
        let ghost s = v@.skip(i as int);
        let ghost before = out@;
        proof {
            assert(s[0] == v@[i as int]);
            assert(s.drop_first() == v@.skip(i + 1));
        }
        let ch = v[i];
        if ch == '{' || ch == '}' {
            i += 1;
            continue;
        }
        if ch != '\\' {
            out.push(ch);
            proof {
                assert(before.push(ch) + mtext_plain(v@.skip(i + 1)) == before + (seq![ch]
                    + mtext_plain(v@.skip(i + 1))));
            }
            i += 1;
            continue;
        }
        if i + 1 >= n {
            proof {
                assert(s.len() == 1);
                assert(out@ + Seq::<char>::empty() == out@);
                assert(v@.skip(n as int) == Seq::<char>::empty());
                assert(out@ + mtext_plain(v@.skip(n as int)) == out@);
            }
            i = n;
            continue;
        }
        let command = v[i + 1];
        let ghost rest = v@.skip(i + 2);
        proof {
            assert(s[1] == command);
            assert(s.skip(2) == rest);
            lemma_semi_index(rest);
        }
        let mut j = i + 2;
        if command == 'P' || command == '~' {
            out.push(' ');
            proof {
                assert(before.push(' ') + mtext_plain(rest) == before + (seq![' '] + mtext_plain(rest)));
            }
        } else if command == '\\' || command == '{' || command == '}' {
            out.push(command);
            proof {
                assert(before.push(command) + mtext_plain(rest) == before + (seq![command]
                    + mtext_plain(rest)));
            }
        } else if command == 'L' || command == 'l' || command == 'O' || command == 'o' || command
            == 'K' || command == 'k' {
        } else if command == 'S' || command == 's' || crate::text::is_alpha(command) {
            let stacked = command == 'S' || command == 's';
            // Scan the parameter up to `;`.
            while j < n && v[j] != ';'
                invariant
                    i + 2 <= j <= n == v.len(),
                    rest == v@.skip(i + 2),
                    forall|k: int| i + 2 <= k < j ==> #[trigger] v@[k] != ';',
                    stacked ==> out@ == before + slashes(v@.subrange(i + 2, j as int)),
                    !stacked ==> out@ == before,
                decreases n - j,
            {
                if stacked {
                    let c = v[j];
                    let d = if c == '#' || c == '^' { '/' } else { c };
                    out.push(d);
                    proof {
                        assert(v@.subrange(i + 2, j + 1) == v@.subrange(i + 2, j as int).push(c));
                        assert(slashes(v@.subrange(i + 2, j + 1)) =~= slashes(
                            v@.subrange(i + 2, j as int),
                        ).push(d));
                    }
                }
                j += 1;
            }
            proof {
                let k = j - (i + 2);
                assert forall|m: int| 0 <= m < k implies #[trigger] rest[m] != ';' by {
                    assert(rest[m] == v@[i + 2 + m]);
                }
                if j < n {
                    assert(rest[k] == v@[j as int]);
                }
                lemma_semi_exact(rest, k);
                assert(rest.take(k) == v@.subrange(i + 2, j as int));
            }
            if j < n {
                j += 1;
            }
            proof {
                assert(after_semi(rest) == v@.skip(j as int));
                if stacked {
                    assert(mtext_plain(s) == slashes(rest.take(semi_index(rest) as int))
                        + mtext_plain(after_semi(rest)));
                    assert(out@ + mtext_plain(v@.skip(j as int)) == before + mtext_plain(s));
                } else {
                    assert(mtext_plain(s) == mtext_plain(after_semi(rest)));
                }
            }
            i = j;
            continue;
        } else {
            out.push(command);
            proof {
                assert(before.push(command) + mtext_plain(rest) == before + (seq![command]
                    + mtext_plain(rest)));
            }
        }
        i = i + 2;
    }
    proof {
        assert(v@.skip(i as int) == Seq::<char>::empty());
        assert(out@ + Seq::<char>::empty() == out@);
    }
    out
}

pub proof fn lemma_semi_exact(s: Seq<char>, n: int)
    requires
        0 <= n <= s.len(),
        forall|i: int| 0 <= i < n ==> #[trigger] s[i] != ';',
        n < s.len() ==> s[n] == ';',
    ensures
        semi_index(s) == n,
    decreases n,
{
    if n > 0 {
        let t = s.drop_first();
        assert forall|i: int| 0 <= i < n - 1 implies #[trigger] t[i] != ';' by {
            assert(t[i] == s[i + 1]);
        }
        if n - 1 < t.len() {
            assert(t[n - 1] == s[n]);
        }
        lemma_semi_exact(t, n - 1);
    }
}

fn replace_all_vec(s: &Vec<char>, pat: &Vec<char>, rep: &Vec<char>) -> (r: Vec<char>)
    requires
        pat@.len() > 0,
    ensures
        r@ == replace_all(s@, pat@, rep@),
{
    let n = s.len();
    let m = pat.len();
    let mut out: Vec<char> = Vec::new();
    let mut i: usize = 0;
    assert(s@.skip(0) == s@);
    while i < n
        invariant
            n == s.len(),
            m == pat.len() > 0,
            i <= n,
            out@ + replace_all(s@.skip(i as int), pat@, rep@) == replace_all(s@, pat@, rep@),
        decreases n - i,
    {
        let ghost t = s@.skip(i as int);
        let ghost before = out@;
        if n - i < m {
            proof {
                assert(t.len() < pat@.len());
                assert(replace_all(t, pat@, rep@) == t);
            }
            while i < n
                invariant
                    n == s.len(),
                    i <= n,
                    out@ + s@.skip(i as int) == before + t,
                decreases n - i,
            {
                out.push(s[i]);
                proof {
                    assert(s@.skip(i as int) == seq![s@[i as int]] + s@.skip(i + 1));
                }
                i += 1;
            }
            proof {
                assert(s@.skip(n as int) == Seq::<char>::empty());
                assert(out@ + Seq::<char>::empty() == out@);
                assert(out@ + replace_all(s@.skip(n as int), pat@, rep@) == out@);
                assert(out@ == before + t);
            }
            continue;
        }
        // Does `pat` start at `i`?
        let mut k: usize = 0;
        while k < m && s[i + k] == pat[k]
            invariant
                m == pat.len(),
                i + m <= n == s.len(),
                k <= m,
                forall|q: int| 0 <= q < k ==> s@[i + q] == pat@[q],
            decreases m - k,
        {
            k += 1;
        }
        if k == m {
            proof {
                assert(t.take(m as int) =~= pat@);
                assert(t.skip(m as int) == s@.skip(i + m));
            }
            let mut q: usize = 0;
            while q < rep.len()
                invariant
                    q <= rep.len(),
                    out@ == before + rep@.take(q as int),
                decreases rep.len() - q,
            {
                out.push(rep[q]);
                assert(rep@.take(q + 1) == rep@.take(q as int).push(rep@[q as int]));
                q += 1;
            }
            proof {
                assert(rep@.take(rep.len() as int) == rep@);
            }
            i = i + m;
        } else {
            proof {
                assert(t[k as int] == s@[i + k]);
                assert(t.take(m as int)[k as int] != pat@[k as int]);
                assert(t.take(m as int) != pat@);
                assert(t[0] == s@[i as int]);
                assert(t.drop_first() == s@.skip(i + 1));
            }
            out.push(s[i]);
            proof {
                assert(before.push(s@[i as int]) + replace_all(s@.skip(i + 1), pat@, rep@) == before
                    + (seq![s@[i as int]] + replace_all(s@.skip(i + 1), pat@, rep@)));
            }
            i += 1;
        }
    }
    proof {
        assert(s@.skip(i as int).len() == 0);
        assert(replace_all(s@.skip(i as int), pat@, rep@) == s@.skip(i as int));
        assert(out@ + s@.skip(i as int) == out@);
    }
    out
}

fn join_space_vec(ws: &Vec<Vec<char>>) -> (r: Vec<char>)
    ensures
        r@ == join_space(ws@.map_values(|w: Vec<char>| w@)),
{
    let ghost wv = ws@.map_values(|w: Vec<char>| w@);
    let mut out: Vec<char> = Vec::new();
    let mut i: usize = 0;
    while i < ws.len()
        invariant
            wv == ws@.map_values(|w: Vec<char>| w@),
            i <= ws.len(),
            out@ == join_space(wv.take(i as int)),
        decreases ws.len() - i,
    {
        let ghost before = out@;
        if i > 0 {
            out.push(' ');
        }
        let w = &ws[i];
        let mut q: usize = 0;
        let ghost mid = out@;
        while q < w.len()
            invariant
                q <= w.len(),
                out@ == mid + w@.take(q as int),
            decreases w.len() - q,
        {
            out.push(w[q]);
            assert(w@.take(q + 1) == w@.take(q as int).push(w@[q as int]));
            q += 1;
        }
        proof {
            assert(w@.take(w.len() as int) == w@);
            assert(wv[i as int] == w@);
            let t = wv.take(i + 1);
            assert(t.drop_last() == wv.take(i as int));
            assert(t.last() == w@);
            if i == 0 {
                assert(t.len() == 1);
                assert(join_space(wv.take(0)) == Seq::<char>::empty());
                assert(out@ == w@);
            }
        }
        i += 1;
    }
    assert(wv.take(ws.len() as int) == wv);
    out
}

/// Plain text of a DXF text value: MTEXT formatting codes removed, `%%c`,
/// `%%d`, `%%p` spelled out, whitespace collapsed.
pub fn normalize_dxf_text(raw: &str) -> (r: String)
    ensures
        r@ == dxf_text(raw@),
{
    proof {
        reveal_strlit("%%c");
        reveal_strlit("%%C");
        reveal_strlit("%%d");
        reveal_strlit("%%D");
        reveal_strlit("%%p");
        reveal_strlit("%%P");
    }
    let plain = mtext_plain_vec(&chars_of(raw));
    let a = replace_all_vec(&plain, &chars_of("%%c"), &chars_of("diameter "));
    let b = replace_all_vec(&a, &chars_of("%%C"), &chars_of("diameter "));
    let c = replace_all_vec(&b, &chars_of("%%d"), &chars_of("deg"));
    let d = replace_all_vec(&c, &chars_of("%%D"), &chars_of("deg"));
    let e = replace_all_vec(&d, &chars_of("%%p"), &chars_of("+/-"));
    let f = replace_all_vec(&e, &chars_of("%%P"), &chars_of("+/-"));
    let ws = crate::text::split_whitespace(&f);
    let joined = join_space_vec(&ws);
    string_of(&joined)
}

// ---------------------------------------------------------------------------
// Entities
// ---------------------------------------------------------------------------

/// The end of an entity's own pairs that start at `j`, inside a section that
/// ends at `end`: the first index from `j` on whose code is `0`, or `end`
/// itself, so that the last entity of a section keeps all its pairs.
pub open spec fn body_end(p: Seq<(Seq<char>, Seq<char>)>, j: int, end: int) -> int
    decreases end - j,
{
    if j < end && p[j].0 != "0"@ {
        body_end(p, j + 1, end)
    } else {
        j
    }
}

pub proof fn lemma_body_end_bounds(p: Seq<(Seq<char>, Seq<char>)>, j: int, end: int)
    ensures
        body_end(p, j, end) >= j,
        j <= end ==> body_end(p, j, end) <= end,
        j >= end ==> body_end(p, j, end) == j,
    decreases end - j,
{
    if j < end && p[j].0 != "0"@ {
        lemma_body_end_bounds(p, j + 1, end);
    }
}

/// The `VERTEX` records that follow a `POLYLINE` from index `j` on: the
/// range of each one's pairs, and the index after the last of them.
pub open spec fn vertex_run(p: Seq<(Seq<char>, Seq<char>)>, j: int, end: int) -> (
    Seq<(int, int)>,
    int,
)
    decreases end - j,
{
    if j + 1 < end && p[j].0 == "0"@ && p[j].1 == "VERTEX"@ {
        let e = body_end(p, j + 1, end);
        proof {
            lemma_body_end_bounds(p, j + 1, end);
        }
        let rest = vertex_run(p, e, end);
        (seq![(j + 1, e)] + rest.0, rest.1)
    } else {
        (seq![], j)
    }
}

pub proof fn lemma_vertex_run_bounds(p: Seq<(Seq<char>, Seq<char>)>, j: int, end: int)
    ensures
        vertex_run(p, j, end).1 >= j,
        j <= end ==> vertex_run(p, j, end).1 <= end,
    decreases end - j,
{
    if j + 1 < end && p[j].0 == "0"@ && p[j].1 == "VERTEX"@ {
        lemma_body_end_bounds(p, j + 1, end);
        lemma_vertex_run_bounds(p, body_end(p, j + 1, end), end);
    }
}

/// The index after an optional `SEQEND` at `k`.
pub open spec fn after_seqend(p: Seq<(Seq<char>, Seq<char>)>, k: int, end: int) -> int {
    if k + 1 < end && p[k].0 == "0"@ && p[k].1 == "SEQEND"@ {
        k + 1
    } else {
        k
    }
}

/// The entities found from index `i` on in a section that ends at `end`, in
/// order: each one's type in upper case, the range of its own pairs, and for
/// a `POLYLINE` the ranges of its `VERTEX` records (which, with an optional
/// closing `SEQEND`, belong to it and start no entity of their own). Pairs
/// before an entity start (code `0`) are skipped.
pub open spec fn entity_records_from(p: Seq<(Seq<char>, Seq<char>)>, i: int, end: int) -> Seq<
    (Seq<char>, int, int, Seq<(int, int)>),
>
    decreases end - i,
{
    if !(i + 1 < end) {
        seq![]
    } else if p[i].0 != "0"@ {
        entity_records_from(p, i + 1, end)
    } else {
        let t = upper(p[i].1);
        let e = body_end(p, i + 1, end);
        proof {
            lemma_body_end_bounds(p, i + 1, end);
            lemma_vertex_run_bounds(p, e, end);
        }
        if t == "POLYLINE"@ {
            let vr = vertex_run(p, e, end);
            proof {
                lemma_vertex_run_bounds(p, e, end);
            }
            seq![(t, i + 1, e, vr.0)] + entity_records_from(p, after_seqend(p, vr.1, end), end)
        } else {
            seq![(t, i + 1, e, seq![])] + entity_records_from(p, e, end)
        }
    }
}

/// The entities of the `ENTITIES` section, or `None` when there is no such
/// section.
pub open spec fn entity_records_of(p: Seq<(Seq<char>, Seq<char>)>) -> Option<
    Seq<(Seq<char>, int, int, Seq<(int, int)>)>,
> {
    match section_range(p, "ENTITIES"@) {
        Some((s, e)) => Some(entity_records_from(p, s, e)),
        None => None,
    }
}

/// One entity of the `ENTITIES` section: its type in upper case, the range
/// `start..end` of its own pairs, and for a `POLYLINE` the pair ranges of its
/// vertices.
#[derive(Clone, Debug)]
pub struct EntityRecord {
    pub entity_type: String,
    pub start: usize,
    pub end: usize,
    pub vertices: Vec<(usize, usize)>,
}

pub open spec fn ranges_view(v: Seq<(usize, usize)>) -> Seq<(int, int)> {
    v.map_values(|r: (usize, usize)| (r.0 as int, r.1 as int))
}

pub open spec fn record_view(r: EntityRecord) -> (Seq<char>, int, int, Seq<(int, int)>) {
    (r.entity_type@, r.start as int, r.end as int, ranges_view(r.vertices@))
}

pub open spec fn records_view(v: Seq<EntityRecord>) -> Seq<(Seq<char>, int, int, Seq<(int, int)>)> {
    v.map_values(|r: EntityRecord| record_view(r))
}

fn scan_body_end(pairs: &[(String, String)], j: usize, end: usize) -> (r: usize)
    requires
        end <= pairs@.len(),
        j <= end,
    ensures
        r == body_end(pairs_view(pairs@), j as int, end as int),
        j <= r <= end,
{
    let ghost p = pairs_view(pairs@);
    let mut k = j;
    while k < end && !is_lit(&pairs[k].0, "0")
        invariant
            p == pairs_view(pairs@),
            end <= pairs@.len(),
            j <= k <= end,
            body_end(p, j as int, end as int) == body_end(p, k as int, end as int),
        decreases end - k,
    {
        assert(p[k as int].0 == pairs@[k as int].0@);
        k += 1;
    }
    proof {
        if k < end {
            assert(p[k as int].0 == pairs@[k as int].0@);
        }
    }
    k
}

/// Splits the `ENTITIES` section into its entities, or gives `None` when the
/// file has no such section.
pub fn entity_records(pairs: &[(String, String)]) -> (r: Option<Vec<EntityRecord>>)
    ensures
        match r {
            Some(v) => entity_records_of(pairs_view(pairs@)) == Some(records_view(v@)),
            None => entity_records_of(pairs_view(pairs@)).is_none(),
        },
{
    let ghost p = pairs_view(pairs@);
    let bounds = section_bounds(pairs, "ENTITIES");
    let (first, end) = match bounds {
        Some(b) => b,
        None => {
            return None;
        },
    };
    proof {
        reveal_strlit("ENTITIES");
    }
    let ghost whole = entity_records_from(p, first as int, end as int);
    let mut out: Vec<EntityRecord> = Vec::new();
    let mut i = first;
    proof {
        lemma_section_from_bounds(p, 0, "ENTITIES"@);
    }
    while end - i > 1
        invariant
            p == pairs_view(pairs@),
            end <= pairs@.len(),
            i <= end,
            records_view(out@) + entity_records_from(p, i as int, end as int) == whole,
        decreases end - i,
    {
        proof {
            assert(p[i as int].0 == pairs@[i as int].0@);
            assert(p[i as int].1 == pairs@[i as int].1@);
        }
        if !is_lit(&pairs[i].0, "0") {
            i += 1;
            continue;
        }
        let t = string_of(&upper_vec(&chars_of(pairs[i].1.as_str())));
        let start = i + 1;
        let e = scan_body_end(pairs, start, end);
        let ghost before = records_view(out@);
        let mut vertices: Vec<(usize, usize)> = Vec::new();
        let mut k = e;
        let is_polyline = is_lit(&t, "POLYLINE");
        proof {
            lemma_body_end_bounds(p, start as int, end as int);
            lemma_vertex_run_bounds(p, e as int, end as int);
            reveal_strlit("POLYLINE");
        }
        if is_polyline {
            let ghost vr = vertex_run(p, e as int, end as int);
            while end - k > 1 && is_lit(&pairs[k].0, "0") && is_lit(&pairs[k].1, "VERTEX")
                invariant
                    p == pairs_view(pairs@),
                    end <= pairs@.len(),
                    e <= k <= end,
                    vr == vertex_run(p, e as int, end as int),
                    ranges_view(vertices@) + vertex_run(p, k as int, end as int).0 == vr.0,
                    vertex_run(p, k as int, end as int).1 == vr.1,
                decreases end - k,
            {
                proof {
                    assert(p[k as int].0 == pairs@[k as int].0@);
                    assert(p[k as int].1 == pairs@[k as int].1@);
                }
                let vs = k + 1;
                let ve = scan_body_end(pairs, vs, end);
                proof {
                    let rest = vertex_run(p, ve as int, end as int);
                    assert(vertex_run(p, k as int, end as int) == (
                        seq![(vs as int, ve as int)] + rest.0,
                        rest.1,
                    ));
                    assert(ranges_view(vertices@.push((vs, ve))) == ranges_view(vertices@).push(
                        (vs as int, ve as int),
                    ));
                    assert(ranges_view(vertices@).push((vs as int, ve as int)) + rest.0
                        == ranges_view(vertices@) + (seq![(vs as int, ve as int)] + rest.0));
                }
                vertices.push((vs, ve));
                k = ve;
            }
            proof {
                if end - k > 1 {
                    assert(p[k as int].0 == pairs@[k as int].0@);
                    assert(p[k as int].1 == pairs@[k as int].1@);
                }
                assert(vertex_run(p, k as int, end as int).0 == Seq::<(int, int)>::empty());
                assert(ranges_view(vertices@) == vr.0);
                assert(vr.1 == k);
            }
            let ghost at = k;
            proof {
                if end - k > 1 {
                    assert(p[k as int].0 == pairs@[k as int].0@);
                    assert(p[k as int].1 == pairs@[k as int].1@);
                }
            }
            if end - k > 1 && is_lit(&pairs[k].0, "0") && is_lit(&pairs[k].1, "SEQEND") {
                k += 1;
            }
            assert(k == after_seqend(p, at as int, end as int));
            assert(ranges_view(vertices@) == vertex_run(p, e as int, end as int).0);
            assert(k == after_seqend(p, vertex_run(p, e as int, end as int).1, end as int));
        }
        let record = EntityRecord { entity_type: t, start, end: e, vertices };
        proof {
            if !is_polyline {
                assert(ranges_view(vertices@) =~= Seq::<(int, int)>::empty());
            }
            assert(t@ == upper(p[i as int].1));
            assert(is_polyline == (t@ == "POLYLINE"@));
            assert(entity_records_from(p, i as int, end as int) == seq![record_view(record)]
                + entity_records_from(p, k as int, end as int));
            assert(records_view(out@.push(record)) == before.push(record_view(record)));
            assert(before.push(record_view(record)) + entity_records_from(p, k as int, end as int)
                == before + (seq![record_view(record)] + entity_records_from(p, k as int, end as int)));
        }
        out.push(record);
        i = k;
    }
    proof {
        assert(entity_records_from(p, i as int, end as int) == Seq::<
            (Seq<char>, int, int, Seq<(int, int)>),
        >::empty());
        assert(records_view(out@) + Seq::<(Seq<char>, int, int, Seq<(int, int)>)>::empty()
            == records_view(out@));
    }
    Some(out)
}


// ---------------------------------------------------------------------------
// Viewports and blocks
// ---------------------------------------------------------------------------

/// The paper layout a `VIEWPORT` entity belongs to: none for the paper-space
/// viewport itself (number 1, the default), else its group 410, or the
/// layout that owns its owner handle, normalized; none when that is `Model`
/// or missing.
pub open spec fn viewport_layout(p: Seq<(Seq<char>, Seq<char>)>, owners: Map<Seq<char>, Seq<char>>) -> Option<
    Seq<char>,
> {
    let number = match lookup_int(p, "69"@) {
        Some(n) => n,
        None => 1,
    };
    if number <= 1 {
        None
    } else {
        let raw = match lookup(p, "410"@) {
            Some(l) => Some(l),
            None => match lookup(p, "330"@) {
                Some(o) => if owners.contains_key(upper(o)) {
                    Some(owners[upper(o)])
                } else {
                    None
                },
                None => None,
            },
        };
        match raw {
            Some(l) => if layout_name(l) == "Model"@ {
                None
            } else {
                Some(layout_name(l))
            },
            None => None,
        }
    }
}

/// The paper layout of a `VIEWPORT` entity (see `viewport_layout`).
pub fn viewport_layout_name(pairs: &[(String, String)], layout_owners: &StrMap) -> (r: Option<String>)
    ensures
        match r {
            Some(l) => viewport_layout(pairs_view(pairs@), layout_owners@) == Some(l@),
            None => viewport_layout(pairs_view(pairs@), layout_owners@).is_none(),
        },
{
    let number = match integer_value(pairs, "69") {
        Some(n) => n,
        None => 1,
    };
    if number <= 1 {
        return None;
    }
    let raw = match text_value(pairs, "410") {
        Some(l) => Some(l),
        None => match text_value(pairs, "330") {
            Some(o) => {
                let key = string_of(&upper_vec(&chars_of(o.as_str())));
                layout_owners.get(key.as_str())
            },
            None => None,
        },
    };
    match raw {
        Some(l) => {
            let n = normalized_layout_name(l.as_str());
            if is_lit(&n, "Model") {
                None
            } else {
                Some(n)
            }
        },
        None => None,
    }
}

/// Whether a `VIEWPORT` entity is shown and whether it is locked, from its
/// status flags (group 90, 0 when missing): bit 512 turns it off, bit 16384
/// locks it.
pub open spec fn viewport_flags(p: Seq<(Seq<char>, Seq<char>)>) -> (bool, bool) {
    let flags: i64 = match lookup_int(p, "90"@) {
        Some(n) => n,
        None => 0,
    };
    (flags & 512 != 512, flags & 16384 == 16384)
}

/// The visible and locked flags of a `VIEWPORT` entity (see
/// `viewport_flags`).
pub fn viewport_visible_locked(pairs: &[(String, String)]) -> (r: (bool, bool))
    ensures
        r == viewport_flags(pairs_view(pairs@)),
{
    let flags: i64 = match integer_value(pairs, "90") {
        Some(n) => n,
        None => 0,
    };
    (flags & 512 != 512, flags & 16384 == 16384)
}

/// The end of a block's pairs that start at `j`: the first `ENDBLK` from `j`
/// on, or `end - 1`.
pub open spec fn block_end(p: Seq<(Seq<char>, Seq<char>)>, j: int, end: int) -> int
    decreases end - j,
{
    if j + 1 < end && !(p[j].0 == "0"@ && eq_ignore_case(p[j].1, "ENDBLK"@)) {
        block_end(p, j + 1, end)
    } else {
        j
    }
}

pub proof fn lemma_block_end_bounds(p: Seq<(Seq<char>, Seq<char>)>, j: int, end: int)
    ensures
        block_end(p, j, end) >= j,
        j + 1 < end ==> block_end(p, j, end) + 1 <= end,
        j + 1 >= end ==> block_end(p, j, end) == j,
    decreases end - j,
{
    if j + 1 < end && !(p[j].0 == "0"@ && eq_ignore_case(p[j].1, "ENDBLK"@)) {
        lemma_block_end_bounds(p, j + 1, end);
    }
}

/// The named blocks found from index `i` on in a section that ends at `end`:
/// each one's name in upper case and the range of its pairs, from after its
/// `BLOCK` pair to its `ENDBLK`. A block without a name (group 2) is skipped.
pub open spec fn block_records_from(p: Seq<(Seq<char>, Seq<char>)>, i: int, end: int) -> Seq<
    (Seq<char>, int, int),
>
    decreases end - i,
{
    if !(i + 1 < end) {
        seq![]
    } else if !(p[i].0 == "0"@ && eq_ignore_case(p[i].1, "BLOCK"@)) {
        block_records_from(p, i + 1, end)
    } else {
        let e = block_end(p, i + 1, end);
        proof {
            lemma_block_end_bounds(p, i + 1, end);
        }
        match lookup(p.subrange(i + 1, e), "2"@) {
            Some(name) => seq![(upper(name), i + 1, e)] + block_records_from(p, e + 1, end),
            None => block_records_from(p, e + 1, end),
        }
    }
}

/// The blocks of the `BLOCKS` section (none without that section).
pub open spec fn block_records_of(p: Seq<(Seq<char>, Seq<char>)>) -> Seq<(Seq<char>, int, int)> {
    match section_range(p, "BLOCKS"@) {
        Some((s, e)) => block_records_from(p, s, e),
        None => seq![],
    }
}

/// A block definition: its name in upper case and the range `start..end` of
/// its pairs.
#[derive(Clone, Debug)]
pub struct BlockRecord {
    pub name: String,
    pub start: usize,
    pub end: usize,
}

pub open spec fn block_view(b: BlockRecord) -> (Seq<char>, int, int) {
    (b.name@, b.start as int, b.end as int)
}

fn scan_block_end(pairs: &[(String, String)], j: usize, end: usize) -> (r: usize)
    requires
        end <= pairs@.len(),
        j <= end,
    ensures
        r == block_end(pairs_view(pairs@), j as int, end as int),
        j <= r <= end,
{
    let ghost p = pairs_view(pairs@);
    let mut k = j;
    while end - k > 1 && !(is_lit(&pairs[k].0, "0") && is_lit_nocase(&pairs[k].1, "ENDBLK"))
        invariant
            p == pairs_view(pairs@),
            end <= pairs@.len(),
            j <= k <= end,
            block_end(p, j as int, end as int) == block_end(p, k as int, end as int),
        decreases end - k,
    {
        assert(p[k as int].0 == pairs@[k as int].0@);
        assert(p[k as int].1 == pairs@[k as int].1@);
        k += 1;
    }
    proof {
        if end - k > 1 {
            assert(p[k as int].0 == pairs@[k as int].0@);
            assert(p[k as int].1 == pairs@[k as int].1@);
        }
    }
    k
}

fn sub_pairs(pairs: &[(String, String)], from: usize, to: usize) -> (r: Vec<(String, String)>)
    requires
        from <= to <= pairs@.len(),
    ensures
        pairs_view(r@) == pairs_view(pairs@).subrange(from as int, to as int),
{
    let ghost p = pairs_view(pairs@);
    let mut r: Vec<(String, String)> = Vec::new();
    let mut i = from;
    while i < to
        invariant
            from <= i <= to <= pairs@.len(),
            p == pairs_view(pairs@),
            pairs_view(r@) == p.subrange(from as int, i as int),
        decreases to - i,
    {
        let ghost before = pairs_view(r@);
        r.push((pairs[i].0.clone(), pairs[i].1.clone()));
        assert(pairs_view(r@) =~= before.push(p[i as int]));
        assert(p.subrange(from as int, i + 1) == p.subrange(from as int, i as int).push(p[i as int]));
        i += 1;
    }
    r
}

/// The named blocks of the `BLOCKS` section, in order.
pub fn block_records(pairs: &[(String, String)]) -> (r: Vec<BlockRecord>)
    ensures
        r@.map_values(|b: BlockRecord| block_view(b)) == block_records_of(pairs_view(pairs@)),
{
    let ghost p = pairs_view(pairs@);
    let mut out: Vec<BlockRecord> = Vec::new();
    let (first, end) = match section_bounds(pairs, "BLOCKS") {
        Some(b) => b,
        None => {
            proof {
                reveal_strlit("BLOCKS");
            }
            assert(out@.map_values(|b: BlockRecord| block_view(b)) =~= Seq::<(Seq<char>, int, int)>::empty());
            return out;
        },
    };
    proof {
        reveal_strlit("BLOCKS");
        lemma_section_from_bounds(p, 0, "BLOCKS"@);
    }
    let ghost whole = block_records_from(p, first as int, end as int);
    let mut i = first;
    assert(out@.map_values(|b: BlockRecord| block_view(b)) =~= Seq::<(Seq<char>, int, int)>::empty());
    while end - i > 1
        invariant
            p == pairs_view(pairs@),
            end <= pairs@.len(),
            i <= end,
            out@.map_values(|b: BlockRecord| block_view(b)) + block_records_from(p, i as int, end as int)
                == whole,
        decreases end - i,
    {
        proof {
            assert(p[i as int].0 == pairs@[i as int].0@);
            assert(p[i as int].1 == pairs@[i as int].1@);
        }
        if !(is_lit(&pairs[i].0, "0") && is_lit_nocase(&pairs[i].1, "BLOCK")) {
            i += 1;
            continue;
        }
        let start = i + 1;
        let e = scan_block_end(pairs, start, end);
        proof {
            lemma_block_end_bounds(p, start as int, end as int);
        }
        let block = sub_pairs(pairs, start, e);
        let ghost before = out@.map_values(|b: BlockRecord| block_view(b));
        match text_value(block.as_slice(), "2") {
            Some(name) => {
                let upper_name = string_of(&upper_vec(&chars_of(name.as_str())));
                let record = BlockRecord { name: upper_name, start, end: e };
                out.push(record);
                proof {
                    assert(out@.map_values(|b: BlockRecord| block_view(b)) =~= before.push(
                        block_view(record),
                    ));
                    assert(block_records_from(p, i as int, end as int) == seq![block_view(record)]
                        + block_records_from(p, e + 1, end as int));
                    assert(before.push(block_view(record)) + block_records_from(p, e + 1, end as int)
                        == before + (seq![block_view(record)] + block_records_from(
                        p,
                        e + 1,
                        end as int,
                    )));
                }
            },
            None => {},
        }
        i = e + 1;
    }
    proof {
        assert(block_records_from(p, i as int, end as int) == Seq::<(Seq<char>, int, int)>::empty());
        assert(out@.map_values(|b: BlockRecord| block_view(b)) + Seq::<(Seq<char>, int, int)>::empty()
            == out@.map_values(|b: BlockRecord| block_view(b)));
    }
    out
}

/// The entities of a block's pairs: each one's type in upper case and the
/// range of its own pairs. Pairs before an entity start are skipped.
pub open spec fn chunk_records_from(p: Seq<(Seq<char>, Seq<char>)>, i: int) -> Seq<
    (Seq<char>, int, int),
>
    decreases p.len() - i,
{
    if i < 0 || !(i + 1 < p.len()) {
        seq![]
    } else if p[i].0 != "0"@ {
        chunk_records_from(p, i + 1)
    } else {
        let e = body_end(p, i + 1, p.len() as int);
        proof {
            lemma_body_end_bounds(p, i + 1, p.len() as int);
        }
        seq![(upper(p[i].1), i + 1, e)] + chunk_records_from(p, e)
    }
}

/// The entities of a block's pairs (see `chunk_records_from`).
pub fn block_entity_records(pairs: &[(String, String)]) -> (r: Vec<(String, usize, usize)>)
    ensures
        r@.map_values(|c: (String, usize, usize)| (c.0@, c.1 as int, c.2 as int)) == chunk_records_from(
            pairs_view(pairs@),
            0,
        ),
{
    let ghost p = pairs_view(pairs@);
    let n = pairs.len();
    let ghost whole = chunk_records_from(p, 0);
    let mut out: Vec<(String, usize, usize)> = Vec::new();
    let mut i: usize = 0;
    assert(out@.map_values(|c: (String, usize, usize)| (c.0@, c.1 as int, c.2 as int)) =~= Seq::<
        (Seq<char>, int, int),
    >::empty());
    while n - i > 1
        invariant
            p == pairs_view(pairs@),
            n == pairs@.len(),
            i <= n,
            out@.map_values(|c: (String, usize, usize)| (c.0@, c.1 as int, c.2 as int))
                + chunk_records_from(p, i as int) == whole,
        decreases n - i,
    {
        proof {
            assert(p[i as int].0 == pairs@[i as int].0@);
            assert(p[i as int].1 == pairs@[i as int].1@);
        }
        if !is_lit(&pairs[i].0, "0") {
            i += 1;
            continue;
        }
        let t = string_of(&upper_vec(&chars_of(pairs[i].1.as_str())));
        let e = scan_body_end(pairs, i + 1, n);
        proof {
            lemma_body_end_bounds(p, i + 1, n as int);
        }
        let ghost before = out@.map_values(|c: (String, usize, usize)| (c.0@, c.1 as int, c.2 as int));
        let ghost entry = (t@, i + 1, e as int);
        out.push((t, i + 1, e));
        proof {
            assert(out@.map_values(|c: (String, usize, usize)| (c.0@, c.1 as int, c.2 as int)) =~= before.push(
                entry,
            ));
            assert(chunk_records_from(p, i as int) == seq![entry] + chunk_records_from(p, e as int));
            assert(before.push(entry) + chunk_records_from(p, e as int) == before + (seq![entry]
                + chunk_records_from(p, e as int)));
        }
        i = e;
    }
    proof {
        assert(chunk_records_from(p, i as int) == Seq::<(Seq<char>, int, int)>::empty());
        assert(out@.map_values(|c: (String, usize, usize)| (c.0@, c.1 as int, c.2 as int))
            + Seq::<(Seq<char>, int, int)>::empty() == out@.map_values(
            |c: (String, usize, usize)| (c.0@, c.1 as int, c.2 as int),
        ));
    }
    out
}

} // verus!
