//! STEP (ISO 10303-21) files are kept as references: their header calls are
//! read and their entity types counted, and no geometry is built.
use vstd::prelude::*;

use crate::document::ImportedReference;
use crate::dxf::pairs_view;
use crate::import::{file_name_or, name_or, reference_view, summary_view, ImportSummary};
use crate::selection::{
    lemma_lex_irreflexive, lemma_lex_total, lemma_lex_transitive, lex_lt, lex_order,
    strictly_increasing,
};
use crate::text::{
    chars_of, decimal, decimal_string, index_of_char, is_alnum, is_ascii_alnum, join_with,
    join_strings, lines, lines_of, owned, prefix_before, push_str, string_of, string_of_range,
    sub_vec, to_upper, trim, trim_vec, upper, upper_char, upper_vec,
};

verus! {

// ---------------------------------------------------------------------------
// Finding text
// ---------------------------------------------------------------------------

/// The first index from `i` on where `n` occurs in `h` (`str::find`).
pub open spec fn match_from(h: Seq<char>, n: Seq<char>, i: int) -> Option<int>
    decreases h.len() + 1 - i,
{
    if i < 0 || i + n.len() > h.len() {
        None
    } else if h.subrange(i, i + n.len()) == n {
        Some(i)
    } else {
        match_from(h, n, i + 1)
    }
}

pub proof fn lemma_match_from_bounds(h: Seq<char>, n: Seq<char>, i: int)
    ensures
        match match_from(h, n, i) {
            Some(k) => i <= k && k + n.len() <= h.len() && h.subrange(k, k + n.len()) == n,
            None => true,
        },
    decreases h.len() + 1 - i,
{
    if !(i < 0 || i + n.len() > h.len()) && h.subrange(i, i + n.len()) != n {
        lemma_match_from_bounds(h, n, i + 1);
    }
}

/// Whether `n` occurs in `h` at `i`.
fn matches_at(h: &Vec<char>, n: &Vec<char>, i: usize) -> (r: bool)
    requires
        i + n.len() <= h.len(),
    ensures
        r == (h@.subrange(i as int, i + n.len()) == n@),
{
    let mut j: usize = 0;
    while j < n.len()
        invariant
            i + n.len() <= h.len(),
            j <= n.len(),
            forall|k: int| 0 <= k < j ==> h@[i + k] == n@[k],
        decreases n.len() - j,
    {
        if h[i + j] != n[j] {
            proof {
                assert(h@.subrange(i as int, i + n.len())[j as int] != n@[j as int]);
            }
            return false;
        }
        j += 1;
    }
    assert(h@.subrange(i as int, i + n.len()) =~= n@);
    true
}

/// The first index where `n` occurs in `h`.
pub fn find_chars(h: &Vec<char>, n: &Vec<char>) -> (r: Option<usize>)
    ensures
        match r {
            Some(k) => match_from(h@, n@, 0) == Some(k as int),
            None => match_from(h@, n@, 0).is_none(),
        },
{
    if n.len() > h.len() {
        return None;
    }
    if n.len() == 0 {
        assert(h@.subrange(0, 0) =~= n@);
        return Some(0);
    }
    let last = h.len() - n.len();
    let mut i: usize = 0;
    while i <= last
        invariant
            last + n.len() == h.len(),
            n.len() > 0,
            i <= last + 1,
            match_from(h@, n@, 0) == match_from(h@, n@, i as int),
        decreases last + 1 - i,
    {
        if matches_at(h, n, i) {
            return Some(i);
        }
        i += 1;
    }
    None
}

// ---------------------------------------------------------------------------
// Header calls
// ---------------------------------------------------------------------------

/// Scans `s` from `k` on for the parenthesis that closes the call, with
/// `depth` parentheses open, inside a quoted string or not, and `prev` the
/// character before `k`. A `'` not preceded by `\` opens or closes a quoted
/// string; parentheses inside one are not counted.
pub open spec fn close_paren(s: Seq<char>, k: int, depth: int, quoted: bool, prev: char) -> Option<
    int,
>
    decreases s.len() - k,
{
    if k < 0 || k >= s.len() {
        None
    } else {
        let c = s[k];
        let q = if c == '\'' && prev != '\\' {
            !quoted
        } else {
            quoted
        };
        if !q && c == ')' && depth - 1 == 0 {
            Some(k)
        } else {
            let d = if q {
                depth
            } else if c == '(' {
                depth + 1
            } else if c == ')' {
                depth - 1
            } else {
                depth
            };
            close_paren(s, k + 1, d, q, c)
        }
    }
}

pub proof fn lemma_close_paren_bounds(s: Seq<char>, k: int, depth: int, quoted: bool, prev: char)
    ensures
        match close_paren(s, k, depth, quoted, prev) {
            Some(i) => k <= i < s.len(),
            None => true,
        },
    decreases s.len() - k,
{
    if !(k < 0 || k >= s.len()) {
        let c = s[k];
        let q = if c == '\'' && prev != '\\' {
            !quoted
        } else {
            quoted
        };
        let d = if q {
            depth
        } else if c == '(' {
            depth + 1
        } else if c == ')' {
            depth - 1
        } else {
            depth
        };
        lemma_close_paren_bounds(s, k + 1, d, q, c);
    }
}

/// The arguments of the first call of `name` in a STEP text, trimmed: the
/// name is searched without regard to ASCII case, and the arguments run from
/// the next `(` to the parenthesis that closes it.
pub open spec fn step_call(data: Seq<char>, name: Seq<char>) -> Option<Seq<char>> {
    match match_from(upper(data), name, 0) {
        None => None,
        Some(start) => {
            let after = data.skip(start + name.len());
            let open = index_of_char(after, '(') as int;
            if open >= after.len() {
                None
            } else {
                match close_paren(after.skip(open), 0, 0, false, '\0') {
                    Some(idx) => Some(trim(after.subrange(open + 1, open + idx))),
                    None => None,
                }
            }
        }
    }
}

fn close_paren_index(s: &Vec<char>) -> (r: Option<usize>)
    ensures
        match r {
            Some(k) => close_paren(s@, 0, 0, false, '\0') == Some(k as int),
            None => close_paren(s@, 0, 0, false, '\0').is_none(),
        },
{
    let mut depth: i128 = 0;
    let mut quoted = false;
    let mut prev = '\0';
    let mut k: usize = 0;
    while k < s.len()
        invariant
            k <= s.len(),
            -(k as int) <= depth <= k,
            close_paren(s@, 0, 0, false, '\0') == close_paren(s@, k as int, depth as int, quoted, prev),
        decreases s.len() - k,
    {
        let c = s[k];
        let q = if c == '\'' && prev != '\\' {
            !quoted
        } else {
            quoted
        };
        if !q && c == ')' && depth == 1 {
            return Some(k);
        }
        if !q {
            if c == '(' {
                depth = depth + 1;
            } else if c == ')' {
                depth = depth - 1;
            }
        }
        quoted = q;
        prev = c;
        k += 1;
    }
    None
}

/// The trimmed arguments of the first call of `name` in a STEP text.
pub fn extract_call(data: &str, name: &str) -> (r: Option<String>)
    ensures
        match r {
            Some(s) => step_call(data@, name@) == Some(s@),
            None => step_call(data@, name@).is_none(),
        },
{
    let d = chars_of(data);
    let up = upper_vec(&d);
    let n = chars_of(name);
    let found = find_chars(&up, &n);
    let start = match found {
        Some(s) => s,
        None => {
            return None;
        },
    };
    proof {
        lemma_match_from_bounds(up@, n@, 0);
        assert(up@.len() == d@.len());
    }
    let after = sub_vec(&d, start + n.len(), d.len());
    assert(after@ == d@.skip(start + n.len()));
    let open = prefix_before(&after, '(');
    if open >= after.len() {
        return None;
    }
    proof {
        crate::text::lemma_index_of_char_found(after@, '(');
    }
    let rest = sub_vec(&after, open, after.len());
    assert(rest@ == after@.skip(open as int));
    let close = close_paren_index(&rest);
    match close {
        Some(idx) => {
            proof {
                lemma_close_paren_bounds(rest@, 0, 0, false, '\0');
                // The `(` at `open` is the first character scanned.
                assert(rest@[0] == '(');
                assert(close_paren(rest@, 0, 0, false, '\0') == close_paren(rest@, 1, 1, false, '('));
                lemma_close_paren_bounds(rest@, 1, 1, false, '(');
            }
            let inner = sub_vec(&after, open + 1, open + idx);
            let t = trim_vec(&inner);
            Some(string_of(&t))
        },
        None => None,
    }
}

// ---------------------------------------------------------------------------
// Entity counts
// ---------------------------------------------------------------------------

pub open spec fn is_ident_char(c: char) -> bool {
    is_ascii_alnum(c) || c == '_'
}

/// The number of leading ASCII letters, digits and underscores of `s`.
pub open spec fn ident_len(s: Seq<char>) -> nat
    decreases s.len(),
{
    if s.len() > 0 && is_ident_char(s[0]) {
        1 + ident_len(s.drop_first())
    } else {
        0
    }
}

pub proof fn lemma_ident_len_exact(s: Seq<char>, n: int)
    requires
        0 <= n <= s.len(),
        forall|i: int| 0 <= i < n ==> is_ident_char(#[trigger] s[i]),
        n < s.len() ==> !is_ident_char(s[n]),
    ensures
        ident_len(s) == n,
    decreases n,
{
    if n > 0 {
        let t = s.drop_first();
        assert forall|i: int| 0 <= i < n - 1 implies is_ident_char(#[trigger] t[i]) by {
            assert(t[i] == s[i + 1]);
        }
        if n - 1 < t.len() {
            assert(t[n - 1] == s[n]);
        }
        lemma_ident_len_exact(t, n - 1);
    }
}

/// The entity type named on a data line (`#12 = CARTESIAN_POINT(...)`): the
/// identifier that starts the trimmed text after the first `=`, in upper
/// case. Lines without `=` or without an identifier name none.
pub open spec fn step_line_name(line: Seq<char>) -> Option<Seq<char>> {
    let eq = index_of_char(line, '=') as int;
    if eq >= line.len() {
        None
    } else {
        let rhs = trim(line.skip(eq + 1));
        let name = upper(rhs.take(ident_len(rhs) as int));
        if name.len() > 0 {
            Some(name)
        } else {
            None
        }
    }
}

/// The entity type names of the lines, in order.
pub open spec fn step_names(ls: Seq<Seq<char>>) -> Seq<Seq<char>>
    decreases ls.len(),
{
    if ls.len() == 0 {
        seq![]
    } else {
        let prev = step_names(ls.drop_last());
        match step_line_name(ls.last()) {
            Some(n) => prev.push(n),
            None => prev,
        }
    }
}

pub proof fn lemma_step_names_len(ls: Seq<Seq<char>>)
    ensures
        step_names(ls).len() <= ls.len(),
    decreases ls.len(),
{
    if ls.len() > 0 {
        lemma_step_names_len(ls.drop_last());
    }
}

/// How often `k` occurs in `s`.
pub open spec fn occurrences(s: Seq<Seq<char>>, k: Seq<char>) -> nat
    decreases s.len(),
{
    if s.len() == 0 {
        0
    } else {
        occurrences(s.drop_last(), k) + if s.last() == k {
            1nat
        } else {
            0nat
        }
    }
}

pub proof fn lemma_occurrences_bound(s: Seq<Seq<char>>, k: Seq<char>)
    ensures
        occurrences(s, k) <= s.len(),
        occurrences(s, k) > 0 ==> s.contains(k),
    decreases s.len(),
{
    if s.len() > 0 {
        lemma_occurrences_bound(s.drop_last(), k);
        if occurrences(s.drop_last(), k) > 0 {
            let i = choose|i: int| 0 <= i < s.drop_last().len() && s.drop_last()[i] == k;
            assert(s[i] == k);
        }
        if s.last() == k {
            assert(s[s.len() - 1] == k);
        }
    }
}

/// The names of a count table, in order.
pub open spec fn count_keys(t: Seq<(String, usize)>) -> Seq<Seq<char>> {
    t.map_values(|e: (String, usize)| e.0@)
}

/// A count table of `names`: its names in increasing order, each with the
/// number of times it occurs, and every name that occurs listed.
pub open spec fn counts_of(t: Seq<(String, usize)>, names: Seq<Seq<char>>) -> bool {
    &&& strictly_increasing(count_keys(t))
    &&& forall|i: int| 0 <= i < t.len() ==> #[trigger] t[i].1 == occurrences(names, t[i].0@)
        && t[i].1 > 0
    &&& forall|j: int|
        #![trigger names[j]]
        0 <= j < names.len() ==> exists|i: int| #![trigger t[i]] 0 <= i < t.len() && t[i].0@ == names[j]
}

/// The identifier prefix of the trimmed text after the first `=`, in upper
/// case.
fn line_name(line: &Vec<char>) -> (r: Option<String>)
    ensures
        match r {
            Some(s) => step_line_name(line@) == Some(s@),
            None => step_line_name(line@).is_none(),
        },
{
    let eq = prefix_before(line, '=');
    if eq >= line.len() {
        return None;
    }
    let rest = sub_vec(line, eq + 1, line.len());
    assert(rest@ == line@.skip(eq + 1));
    let rhs = trim_vec(&rest);
    let mut n: usize = 0;
    while n < rhs.len() && (is_alnum(rhs[n]) || rhs[n] == '_')
        invariant
            n <= rhs.len(),
            forall|i: int| 0 <= i < n ==> is_ident_char(#[trigger] rhs@[i]),
        decreases rhs.len() - n,
    {
        n += 1;
    }
    proof {
        lemma_ident_len_exact(rhs@, n as int);
    }
    let word = sub_vec(&rhs, 0, n);
    assert(word@ == rhs@.take(n as int));
    let name = upper_vec(&word);
    if name.len() > 0 {
        Some(string_of(&name))
    } else {
        None
    }
}

/// Counts one more occurrence of `name` in a count table of `names`.
fn count_name(t: &mut Vec<(String, usize)>, name: String, Ghost(names): Ghost<Seq<Seq<char>>>)
    requires
        counts_of(old(t)@, names),
        names.len() < usize::MAX,
    ensures
        counts_of(final(t)@, names.push(name@)),
{
    let key = chars_of(name.as_str());
    let ghost keys = count_keys(t@);
    let ghost grown = names.push(name@);
    proof {
        assert forall|x: Seq<char>| #[trigger] occurrences(grown, x) == occurrences(names, x) + if x
            == name@ {
            1nat
        } else {
            0nat
        } by {
            assert(grown.drop_last() == names);
        }
    }
    let n = t.len();
    let mut k: usize = 0;
    while k < n
        invariant
            n == t.len(),
            keys == count_keys(t@),
            key@ == name@,
            grown == names.push(name@),
            counts_of(t@, names),
            names.len() < usize::MAX,
            forall|x: Seq<char>| #[trigger] occurrences(grown, x) == occurrences(names, x) + if x
                == name@ {
                1nat
            } else {
                0nat
            },
            k <= n,
            forall|j: int| 0 <= j < k ==> lex_lt(#[trigger] keys[j], key@),
        decreases n - k,
    {
        let current = chars_of(t[k].0.as_str());
        assert(current@ == keys[k as int]);
        let o = lex_order(&current, &key);
        if o == 0 {
            // Already listed: one more occurrence.
            let ghost old_t = t@;
            proof {
                lemma_occurrences_bound(names, key@);
                assert(old_t[k as int].1 == occurrences(names, old_t[k as int].0@));
            }
            let c = t[k].1;
            let entry = (t[k].0.clone(), c + 1);
            t.set(k, entry);
            proof {
                let nt = t@;
                assert(count_keys(nt) =~= keys);
                assert forall|i: int| 0 <= i < nt.len() implies #[trigger] nt[i].1 == occurrences(
                    grown,
                    nt[i].0@,
                ) && nt[i].1 > 0 by {
                    if i != k {
                        assert(old_t[i] == nt[i]);
                        if i < k {
                            assert(lex_lt(keys[i], keys[k as int]));
                        } else {
                            assert(lex_lt(keys[k as int], keys[i]));
                        }
                        lemma_lex_irreflexive(keys[i]);
                        assert(nt[i].0@ != name@);
                    }
                }
                assert forall|j: int| #![trigger grown[j]] 0 <= j < grown.len() implies exists|i: int|
                    #![trigger nt[i]] 0 <= i < nt.len() && nt[i].0@ == grown[j] by {
                    if j < names.len() {
                        let i = choose|i: int| 0 <= i < old_t.len() && old_t[i].0@
                            == names[j];
                        assert(nt[i].0@ == grown[j]);
                    } else {
                        assert(nt[k as int].0@ == grown[j]);
                    }
                }
            }
            return;
        }
        if o == 1 {
            // Not listed: it goes before the first larger name.
            let ghost old_t = t@;
            proof {
                assert(lex_lt(key@, keys[k as int]));
                assert forall|i: int| 0 <= i < old_t.len() implies #[trigger] old_t[i].0@ != key@ by {
                    assert(old_t[i].0@ == keys[i]);
                    if i < k {
                        lemma_lex_irreflexive(key@);
                    } else if i > k {
                        assert(lex_lt(keys[k as int], keys[i]));
                        lemma_lex_transitive(key@, keys[k as int], keys[i]);
                        lemma_lex_irreflexive(key@);
                    } else {
                        lemma_lex_irreflexive(key@);
                    }
                }
                if names.contains(key@) {
                    let j = choose|j: int| 0 <= j < names.len() && names[j] == key@;
                    let i = choose|i: int| 0 <= i < old_t.len() && old_t[i].0@
                        == names[j];
                    assert(false);
                }
                lemma_occurrences_bound(names, key@);
            }
            proof {
                assert forall|i: int| 0 <= i < k implies lex_lt(#[trigger] old_t[i].0@, key@) by {
                    assert(old_t[i].0@ == keys[i]);
                }
                assert(old_t[k as int].0@ == keys[k as int]);
            }
            t.insert(k, (name, 1));
            proof {
                insert_keeps_counts(old_t, t@, k as int, names, grown);
            }
            return;
        }
        k += 1;
    }
    let ghost old_t = t@;
    proof {
        assert forall|i: int| 0 <= i < old_t.len() implies #[trigger] old_t[i].0@ != key@ by {
            assert(old_t[i].0@ == keys[i]);
            lemma_lex_irreflexive(key@);
        }
        if names.contains(key@) {
            let j = choose|j: int| 0 <= j < names.len() && names[j] == key@;
            let i = choose|i: int| 0 <= i < old_t.len() && old_t[i].0@ == names[j];
            assert(false);
        }
        lemma_occurrences_bound(names, key@);
    }
    proof {
        assert forall|i: int| 0 <= i < n implies lex_lt(#[trigger] old_t[i].0@, key@) by {
            assert(old_t[i].0@ == keys[i]);
        }
    }
    t.push((name, 1));
    proof {
        assert(t@ == old_t.insert(n as int, t@[n as int]));
        insert_keeps_counts(old_t, t@, n as int, names, grown);
    }
}

/// Inserting a new name, smaller than those after it and larger than those
/// before it, with count 1, into a count table of `names` gives a count
/// table of `grown`, the names with it appended.
proof fn insert_keeps_counts(
    old_t: Seq<(String, usize)>,
    new_t: Seq<(String, usize)>,
    k: int,
    names: Seq<Seq<char>>,
    grown: Seq<Seq<char>>,
)
    requires
        0 <= k <= old_t.len(),
        new_t.len() == old_t.len() + 1,
        forall|i: int| 0 <= i < k ==> new_t[i] == old_t[i],
        forall|i: int| k < i < new_t.len() ==> new_t[i] == old_t[i - 1],
        new_t[k].1 == 1,
        grown == names.push(new_t[k].0@),
        occurrences(names, new_t[k].0@) == 0,
        counts_of(old_t, names),
        forall|i: int| 0 <= i < k ==> lex_lt(#[trigger] old_t[i].0@, new_t[k].0@),
        k < old_t.len() ==> lex_lt(new_t[k].0@, old_t[k].0@),
        forall|x: Seq<char>| #[trigger] occurrences(grown, x) == occurrences(names, x) + if x
            == new_t[k].0@ {
            1nat
        } else {
            0nat
        },
    ensures
        counts_of(new_t, grown),
{
    let key = new_t[k].0@;
    let ok = count_keys(old_t);
    let nk = count_keys(new_t);
    assert forall|i: int, j: int| 0 <= i < j < nk.len() implies lex_lt(
        #[trigger] nk[i],
        #[trigger] nk[j],
    ) by {
        if j < k {
            assert(lex_lt(ok[i], ok[j]));
        } else if j == k {
            assert(lex_lt(old_t[i].0@, key));
        } else if i == k {
            let next = old_t[k].0@;
            if j - 1 > k {
                assert(lex_lt(ok[k], ok[j - 1]));
                lemma_lex_transitive(key, next, old_t[j - 1].0@);
            }
        } else if i < k {
            assert(lex_lt(ok[i], ok[j - 1]));
        } else {
            assert(lex_lt(ok[i - 1], ok[j - 1]));
        }
    }
    assert forall|i: int| 0 <= i < new_t.len() implies #[trigger] new_t[i].1 == occurrences(
        grown,
        new_t[i].0@,
    ) && new_t[i].1 > 0 by {
        if i != k {
            let oi = if i < k {
                i
            } else {
                i - 1
            };
            assert(new_t[i] == old_t[oi]);
            assert(old_t[oi].1 == occurrences(names, old_t[oi].0@));
            if old_t[oi].0@ == key {
                lemma_occurrences_bound(names, key);
                assert(names.contains(key)) by {
                    assert(occurrences(names, old_t[oi].0@) > 0);
                }
            }
        }
    }
    assert forall|j: int| #![trigger grown[j]] 0 <= j < grown.len() implies exists|i: int|
        #![trigger new_t[i]] 0 <= i < new_t.len() && new_t[i].0@ == grown[j] by {
        if j < names.len() {
            let i = choose|i: int| 0 <= i < old_t.len() && old_t[i].0@ == names[j];
            if i < k {
                assert(new_t[i].0@ == grown[j]);
            } else {
                assert(new_t[i + 1].0@ == grown[j]);
            }
        } else {
            assert(new_t[k].0@ == grown[j]);
        }
    }
}

/// The entity types used in a STEP text with how often each is used, in
/// increasing order of name.
pub fn entity_counts(data: &str) -> (r: Vec<(String, usize)>)
    ensures
        counts_of(r@, step_names(lines(data@))),
{
    let d = chars_of(data);
    let ls = lines_of(&d);
    let ghost lv = ls@.map_values(|l: Vec<char>| l@);
    let mut t: Vec<(String, usize)> = Vec::new();
    let mut i: usize = 0;
    proof {
        assert(lv.take(0) =~= Seq::<Seq<char>>::empty());
        assert(count_keys(t@) =~= Seq::<Seq<char>>::empty());
    }
    while i < ls.len()
        invariant
            i <= ls.len(),
            lv == ls@.map_values(|l: Vec<char>| l@),
            lv == lines(d@),
            counts_of(t@, step_names(lv.take(i as int))),
        decreases ls.len() - i,
    {
        let ghost before = step_names(lv.take(i as int));
        proof {
            assert(lv.take(i + 1).drop_last() == lv.take(i as int));
            assert(lv.take(i + 1).last() == ls@[i as int]@);
            lemma_step_names_len(lv.take(i as int));
        }
        match line_name(&ls[i]) {
            Some(name) => {
                count_name(&mut t, name, Ghost(before));
            },
            None => {},
        }
        i += 1;
    }
    assert(lv.take(ls.len() as int) == lv);
    t
}


/// A count table as (name, count) values.
pub open spec fn count_view(t: Seq<(String, usize)>) -> Seq<(Seq<char>, nat)> {
    t.map_values(|e: (String, usize)| (e.0@, e.1 as nat))
}

/// Two strictly increasing sequences with the same elements are equal.
pub proof fn lemma_sorted_unique(a: Seq<Seq<char>>, b: Seq<Seq<char>>)
    requires
        strictly_increasing(a),
        strictly_increasing(b),
        forall|x: Seq<char>| a.contains(x) <==> b.contains(x),
    ensures
        a == b,
    decreases a.len(),
{
    if a.len() == 0 {
        if b.len() > 0 {
            assert(b.contains(b[0]));
        }
        assert(b.len() == 0);
        assert(a =~= b);
    } else {
        assert(a.contains(a[0]));
        assert(b.len() > 0);
        assert(b.contains(b[0]));
        let j = choose|j: int| 0 <= j < b.len() && b[j] == a[0];
        let i = choose|i: int| 0 <= i < a.len() && a[i] == b[0];
        if j > 0 {
            assert(lex_lt(b[0], b[j]));
            if i > 0 {
                assert(lex_lt(a[0], a[i]));
                crate::selection::lemma_lex_asymmetric(a[0], b[0]);
            } else {
                lemma_lex_irreflexive(a[0]);
            }
        }
        assert(a[0] == b[0]);
        let ta = a.drop_first();
        let tb = b.drop_first();
        assert forall|x: Seq<char>| ta.contains(x) <==> tb.contains(x) by {
            if ta.contains(x) {
                let k = choose|k: int| 0 <= k < ta.len() && ta[k] == x;
                assert(lex_lt(a[0], a[k + 1]));
                assert(b.contains(x));
                let m = choose|m: int| 0 <= m < b.len() && b[m] == x;
                if m == 0 {
                    lemma_lex_irreflexive(x);
                }
                assert(tb[m - 1] == x);
            }
            if tb.contains(x) {
                let k = choose|k: int| 0 <= k < tb.len() && tb[k] == x;
                assert(lex_lt(b[0], b[k + 1]));
                assert(a.contains(x));
                let m = choose|m: int| 0 <= m < a.len() && a[m] == x;
                if m == 0 {
                    lemma_lex_irreflexive(x);
                }
                assert(ta[m - 1] == x);
            }
        }
        lemma_sorted_unique(ta, tb);
        assert(a =~= seq![a[0]] + ta);
        assert(b =~= seq![b[0]] + tb);
    }
}

/// The entity count table of a STEP text is determined by its names: any
/// two tables that count the same names hold the same entries.
pub proof fn law_count_table_unique(t1: Seq<(String, usize)>, t2: Seq<(String, usize)>, names: Seq<
    Seq<char>,
>)
    requires
        counts_of(t1, names),
        counts_of(t2, names),
    ensures
        count_view(t1) == count_view(t2),
{
    let k1 = count_keys(t1);
    let k2 = count_keys(t2);
    assert forall|x: Seq<char>| k1.contains(x) <==> k2.contains(x) by {
        if k1.contains(x) {
            let i = choose|i: int| 0 <= i < k1.len() && k1[i] == x;
            assert(t1[i].1 == occurrences(names, t1[i].0@) && t1[i].1 > 0);
            lemma_occurrences_bound(names, x);
            let j = choose|j: int| 0 <= j < names.len() && names[j] == x;
            let m = choose|m: int| 0 <= m < t2.len() && t2[m].0@ == names[j];
            assert(k2[m] == x);
        }
        if k2.contains(x) {
            let i = choose|i: int| 0 <= i < k2.len() && k2[i] == x;
            assert(t2[i].1 == occurrences(names, t2[i].0@) && t2[i].1 > 0);
            lemma_occurrences_bound(names, x);
            let j = choose|j: int| 0 <= j < names.len() && names[j] == x;
            let m = choose|m: int| 0 <= m < t1.len() && t1[m].0@ == names[j];
            assert(k1[m] == x);
        }
    }
    lemma_sorted_unique(k1, k2);
    assert forall|i: int| 0 <= i < t1.len() implies #[trigger] count_view(t1)[i] == count_view(
        t2,
    )[i] by {
        assert(k1[i] == k2[i]);
        assert(t1[i].1 == occurrences(names, t1[i].0@));
        assert(t2[i].1 == occurrences(names, t2[i].0@));
    }
    assert(count_view(t1) =~= count_view(t2));
}

// ---------------------------------------------------------------------------
// The STEP summary
// ---------------------------------------------------------------------------

/// Whether a text looks like a STEP exchange file: it names the standard and
/// has a header and a data section (compared without regard to ASCII case).
pub open spec fn looks_like_step(data: Seq<char>) -> bool {
    &&& match_from(upper(data), "ISO-10303-21"@, 0).is_some()
    &&& match_from(upper(data), "HEADER"@, 0).is_some()
    &&& match_from(upper(data), "DATA"@, 0).is_some()
}

/// A header call's arguments, or `unknown`.
pub open spec fn call_or_unknown(data: Seq<char>, name: Seq<char>) -> Seq<char> {
    match step_call(data, name) {
        Some(s) => s,
        None => "unknown"@,
    }
}

/// The first twelve entries of a count table as `NAME: count`, joined with
/// `, `.
pub open spec fn top_entities(t: Seq<(Seq<char>, nat)>) -> Seq<char> {
    join_with(
        t.take(if t.len() < 12 {
            t.len() as int
        } else {
            12
        }).map_values(|e: (Seq<char>, nat)| e.0 + ": "@ + decimal(e.1)),
        ", "@,
    )
}

pub open spec fn step_summary_text() -> Seq<char> {
    "STEP metadata/reference loaded. B-Rep tessellation is not implemented yet."@
}

pub open spec fn step_warnings() -> Seq<Seq<char>> {
    seq![
        "STEP geometry is stored as an external reference only."@,
        "Future tessellation should use OpenCascade/OCCT or a conversion bridge."@,
    ]
}

fn upper_contains(up: &Vec<char>, lit: &str) -> (r: bool)
    ensures
        r == match_from(up@, lit@, 0).is_some(),
{
    let n = chars_of(lit);
    find_chars(up, &n).is_some()
}

fn call_text(data: &str, name: &str) -> (r: String)
    ensures
        r@ == call_or_unknown(data@, name@),
{
    match extract_call(data, name) {
        Some(s) => s,
        None => owned("unknown"),
    }
}

fn top_entities_text(t: &Vec<(String, usize)>) -> (r: String)
    ensures
        r@ == top_entities(count_view(t@)),
{
    let ghost cv = count_view(t@);
    let limit: usize = if t.len() < 12 {
        t.len()
    } else {
        12
    };
    let ghost shown = cv.take(limit as int).map_values(
        |e: (Seq<char>, nat)| e.0 + ": "@ + decimal(e.1),
    );
    let mut parts: Vec<String> = Vec::new();
    let mut i: usize = 0;
    while i < limit
        invariant
            i <= limit <= t.len(),
            cv == count_view(t@),
            shown == cv.take(limit as int).map_values(
                |e: (Seq<char>, nat)| e.0 + ": "@ + decimal(e.1),
            ),
            parts@.map_values(|p: String| p@) == shown.take(i as int),
        decreases limit - i,
    {
        let mut part = t[i].0.clone();
        push_str(&mut part, ": ");
        let c = decimal_string(t[i].1 as u128);
        push_str(&mut part, c.as_str());
        let ghost before = parts@.map_values(|p: String| p@);
        parts.push(part);
        proof {
            assert(shown[i as int] == cv[i as int].0 + ": "@ + decimal(cv[i as int].1));
            assert(shown.take(i + 1) == shown.take(i as int).push(shown[i as int]));
            assert(parts@.map_values(|p: String| p@) =~= before.push(shown[i as int]));
        }
        i += 1;
    }
    assert(shown.take(limit as int) == shown);
    join_strings(&parts, ", ")
}

/// Reads a STEP file's header and entity types. A text that does not look
/// like a STEP exchange file is refused; otherwise the result is the
/// reference to keep in the document and the summary to report, whose last
/// two details are the number of entity types and the first twelve of them
/// with their counts (see `entity_counts`).
pub fn import_step_metadata(data: &str, path: &str, file_name: Option<&str>) -> (r: Result<
    (ImportedReference, ImportSummary),
    String,
>)
    ensures
        match r {
            Err(m) => !looks_like_step(data@) && m@
                == "File does not look like an ISO-10303 STEP exchange file"@,
            Ok((reference, summary)) => {
                &&& looks_like_step(data@)
                &&& reference_view(reference) == (
                    path@,
                    "STEP"@,
                    step_summary_text(),
                    step_warnings(),
                )
                &&& exists|t: Seq<(String, usize)>|
                    #![trigger counts_of(t, step_names(lines(data@)))]
                    counts_of(t, step_names(lines(data@))) && summary_view(summary) == (
                        name_or(file_name, "model.step"@),
                        "STEP metadata/reference"@,
                        step_summary_text(),
                        seq![
                            ("FILE_DESCRIPTION"@, call_or_unknown(data@, "FILE_DESCRIPTION"@)),
                            ("FILE_NAME"@, call_or_unknown(data@, "FILE_NAME"@)),
                            ("FILE_SCHEMA"@, call_or_unknown(data@, "FILE_SCHEMA"@)),
                            ("Entity types"@, decimal(t.len())),
                            ("Top entities"@, top_entities(count_view(t))),
                        ],
                        step_warnings(),
                    )
            },
        },
{
    let up = upper_vec(&chars_of(data));
    if !(upper_contains(&up, "ISO-10303-21") && upper_contains(&up, "HEADER") && upper_contains(
        &up,
        "DATA",
    )) {
        return Err(owned("File does not look like an ISO-10303 STEP exchange file"));
    }
    let description = call_text(data, "FILE_DESCRIPTION");
    let name = call_text(data, "FILE_NAME");
    let schema = call_text(data, "FILE_SCHEMA");
    let counts = entity_counts(data);
    let top = top_entities_text(&counts);
    let mut warnings: Vec<String> = Vec::new();
    warnings.push(owned("STEP geometry is stored as an external reference only."));
    warnings.push(owned("Future tessellation should use OpenCascade/OCCT or a conversion bridge."));
    let mut ref_warnings: Vec<String> = Vec::new();
    ref_warnings.push(owned("STEP geometry is stored as an external reference only."));
    ref_warnings.push(
        owned("Future tessellation should use OpenCascade/OCCT or a conversion bridge."),
    );
    let reference = ImportedReference {
        path: owned(path),
        format: owned("STEP"),
        summary: owned("STEP metadata/reference loaded. B-Rep tessellation is not implemented yet."),
        warnings: ref_warnings,
    };
    let mut details: Vec<(String, String)> = Vec::new();
    details.push((owned("FILE_DESCRIPTION"), description));
    details.push((owned("FILE_NAME"), name));
    details.push((owned("FILE_SCHEMA"), schema));
    details.push((owned("Entity types"), decimal_string(counts.len() as u128)));
    details.push((owned("Top entities"), top));
    let summary = ImportSummary {
        file_name: file_name_or(file_name, "model.step"),
        format: owned("STEP metadata/reference"),
        summary: owned("STEP metadata/reference loaded. B-Rep tessellation is not implemented yet."),
        details,
        warnings,
    };
    proof {
        assert(reference.warnings@.map_values(|w: String| w@) =~= step_warnings());
        assert(summary.warnings@.map_values(|w: String| w@) =~= step_warnings());
        assert(pairs_view(summary.details@) =~= seq![
            ("FILE_DESCRIPTION"@, call_or_unknown(data@, "FILE_DESCRIPTION"@)),
            ("FILE_NAME"@, call_or_unknown(data@, "FILE_NAME"@)),
            ("FILE_SCHEMA"@, call_or_unknown(data@, "FILE_SCHEMA"@)),
            ("Entity types"@, decimal(counts@.len())),
            ("Top entities"@, top_entities(count_view(counts@))),
        ]);
        assert(counts_of(counts@, step_names(lines(data@))));
    }
    Ok((reference, summary))
}

} // verus!
