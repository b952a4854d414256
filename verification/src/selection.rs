//! The set of selected entity ids.
//!
//! The selection is a set of id strings; `selected_ids` lists it in the order
//! of `String`'s `Ord` (byte-wise on UTF-8, which is the lexicographic order
//! of the characters' code points).
use vstd::prelude::*;

use crate::text::{chars_of, owned, parse_u64, parse_u64_chars, sub_vec};

verus! {

/// Lexicographic order of character sequences by code point.
pub open spec fn lex_lt(a: Seq<char>, b: Seq<char>) -> bool
    decreases a.len(),
{
    if a.len() == 0 {
        b.len() > 0
    } else if b.len() == 0 {
        false
    } else if a[0] != b[0] {
        a[0] < b[0]
    } else {
        lex_lt(a.drop_first(), b.drop_first())
    }
}

/// Each element is strictly smaller than every later one.
pub open spec fn strictly_increasing(s: Seq<Seq<char>>) -> bool {
    forall|i: int, j: int| 0 <= i < j < s.len() ==> lex_lt(#[trigger] s[i], #[trigger] s[j])
}

pub proof fn lemma_lex_irreflexive(a: Seq<char>)
    ensures
        !lex_lt(a, a),
    decreases a.len(),
{
    if a.len() > 0 {
        lemma_lex_irreflexive(a.drop_first());
    }
}

pub proof fn lemma_lex_asymmetric(a: Seq<char>, b: Seq<char>)
    ensures
        lex_lt(a, b) ==> !lex_lt(b, a),
    decreases a.len(),
{
    if a.len() > 0 && b.len() > 0 && a[0] == b[0] {
        lemma_lex_asymmetric(a.drop_first(), b.drop_first());
    }
}

pub proof fn lemma_lex_transitive(a: Seq<char>, b: Seq<char>, c: Seq<char>)
    requires
        lex_lt(a, b),
        lex_lt(b, c),
    ensures
        lex_lt(a, c),
    decreases a.len(),
{
    if a.len() > 0 && b.len() > 0 && c.len() > 0 && a[0] == b[0] && b[0] == c[0] {
        lemma_lex_transitive(a.drop_first(), b.drop_first(), c.drop_first());
    }
}

pub proof fn lemma_lex_total(a: Seq<char>, b: Seq<char>)
    ensures
        a == b || lex_lt(a, b) || lex_lt(b, a),
    decreases a.len(),
{
    if a.len() > 0 && b.len() > 0 && a[0] == b[0] {
        lemma_lex_total(a.drop_first(), b.drop_first());
        if a.drop_first() == b.drop_first() {
            assert(a == seq![a[0]] + a.drop_first());
            assert(b == seq![b[0]] + b.drop_first());
        }
    }
}

/// Compares two character sequences: -1 when `a` comes first, 0 when they
/// are equal, 1 when `b` comes first.
pub fn lex_order(a: &Vec<char>, b: &Vec<char>) -> (r: i8)
    ensures
        r == -1 <==> lex_lt(a@, b@),
        r == 0 <==> a@ == b@,
        r == 1 <==> lex_lt(b@, a@),
        r == -1 || r == 0 || r == 1,
{
    let mut i: usize = 0;
    proof {
        assert(a@.skip(0) == a@);
        assert(b@.skip(0) == b@);
    }
    while i < a.len() && i < b.len()
        invariant
            i <= a.len(),
            i <= b.len(),
            forall|j: int| 0 <= j < i ==> a@[j] == b@[j],
            lex_lt(a@, b@) == lex_lt(a@.skip(i as int), b@.skip(i as int)),
            lex_lt(b@, a@) == lex_lt(b@.skip(i as int), a@.skip(i as int)),
        decreases a.len() - i,
    {
        if a[i] != b[i] {
            proof {
                lemma_lex_asymmetric(a@, b@);
                assert(a@.skip(i as int)[0] == a@[i as int]);
                assert(b@.skip(i as int)[0] == b@[i as int]);
            }
            if a[i] < b[i] {
                return -1;
            } else {
                return 1;
            }
        }
        proof {
            assert(a@.skip(i as int).drop_first() == a@.skip(i + 1));
            assert(b@.skip(i as int).drop_first() == b@.skip(i + 1));
        }
        i += 1;
    }
    proof {
        lemma_lex_irreflexive(a@);
    }
    if a.len() == b.len() {
        assert(a@ =~= b@);
        0
    } else if i == a.len() {
        proof {
            assert(a@ != b@);
        }
        -1
    } else {
        proof {
            assert(a@ != b@);
        }
        1
    }
}

/// The ids of the currently selected entities.
pub struct SelectionManager {
    selected: Vec<String>,
}

impl SelectionManager {
    /// The stored ids, as character sequences, in stored order.
    pub closed spec fn ids(self) -> Seq<Seq<char>> {
        self.selected@.map_values(|s: String| s@)
    }

    #[verifier::type_invariant]
    spec fn sorted(self) -> bool {
        strictly_increasing(self.ids())
    }

    /// The selection as a set of ids.
    pub closed spec fn view(self) -> Set<Seq<char>> {
        self.ids().to_set()
    }

    proof fn lemma_ids_facts(self)
        requires
            strictly_increasing(self.ids()),
        ensures
            self.ids().no_duplicates(),
            self.view().len() == self.ids().len(),
            self.view().finite(),
    {
        let s = self.ids();
        assert forall|i: int, j: int| 0 <= i < s.len() && 0 <= j < s.len() && i != j implies s[i]
            != s[j] by {
            if i < j {
                assert(lex_lt(s[i], s[j]));
                lemma_lex_irreflexive(s[i]);
            } else {
                assert(lex_lt(s[j], s[i]));
                lemma_lex_irreflexive(s[j]);
            }
        }
        s.unique_seq_to_set();
    }

    /// Position of the first stored id that is not smaller than `id`, and
    /// whether it equals `id`.
    fn locate(&self, id: &Vec<char>) -> (r: (usize, bool))
        ensures
            r.0 <= self.ids().len(),
            forall|k: int| 0 <= k < r.0 ==> lex_lt(#[trigger] self.ids()[k], id@),
            r.0 < self.ids().len() ==> !lex_lt(self.ids()[r.0 as int], id@),
            r.1 == (r.0 < self.ids().len() && self.ids()[r.0 as int] == id@),
            r.1 == self.view().contains(id@),
    {
        proof {
            use_type_invariant(self);
        }
        let n = self.selected.len();
        let mut k: usize = 0;
        while k < n
            invariant
                n == self.selected.len() == self.ids().len(),
                strictly_increasing(self.ids()),
                k <= n,
                forall|j: int| 0 <= j < k ==> lex_lt(#[trigger] self.ids()[j], id@),
            decreases n - k,
        {
            let current = chars_of(self.selected[k].as_str());
            assert(current@ == self.ids()[k as int]);
            let o = lex_order(&current, id);
            if o != -1 {
                let found = o == 0;
                proof {
                    let s = self.ids();
                    if !found {
                        assert(lex_lt(id@, s[k as int]));
                        assert forall|j: int| 0 <= j < s.len() implies s[j] != id@ by {
                            if j < k {
                                lemma_lex_irreflexive(id@);
                            } else if j > k {
                                assert(lex_lt(s[k as int], s[j]));
                                lemma_lex_transitive(id@, s[k as int], s[j]);
                                lemma_lex_irreflexive(id@);
                            } else {
                                lemma_lex_irreflexive(id@);
                            }
                        }
                        assert(!s.contains(id@));
                    } else {
                        assert(s.contains(id@));
                    }
                }
                return (k, found);
            }
            k += 1;
        }
        proof {
            let s = self.ids();
            assert forall|j: int| 0 <= j < s.len() implies s[j] != id@ by {
                lemma_lex_irreflexive(id@);
            }
            assert(!s.contains(id@));
        }
        (n, false)
    }

    /// An empty selection.
    pub fn new() -> (s: Self)
        ensures
            s@ == Set::<Seq<char>>::empty(),
    {
        let s = SelectionManager { selected: Vec::new() };
        assert(s.ids() =~= Seq::<Seq<char>>::empty());
        s
    }

    /// Deselects everything.
    pub fn clear(&mut self)
        ensures
            final(self)@ == Set::<Seq<char>>::empty(),
    {
        self.selected = Vec::new();
        assert(self.ids() =~= Seq::<Seq<char>>::empty());
    }

    /// Adds `id` to the selection.
    pub fn add(&mut self, id: &str)
        ensures
            final(self)@ == old(self)@.insert(id@),
    {
        proof {
            use_type_invariant(&*self);
        }
        let key = chars_of(id);
        let (k, found) = self.locate(&key);
        if found {
            assert(self@.insert(id@) =~= self@);
            return;
        }
        let ghost old_ids = self.ids();
        let mut v: Vec<String> = Vec::new();
        std::mem::swap(&mut v, &mut self.selected);
        assert(v@.map_values(|s: String| s@) == old_ids);
        v.insert(k, owned(id));
        proof {
            let new_ids = v@.map_values(|s: String| s@);
            assert(new_ids =~= old_ids.insert(k as int, id@));
            assert forall|i: int, j: int| 0 <= i < j < new_ids.len() implies lex_lt(
                #[trigger] new_ids[i],
                #[trigger] new_ids[j],
            ) by {
                if j < k {
                    assert(lex_lt(old_ids[i], old_ids[j]));
                } else if j == k {
                    assert(lex_lt(old_ids[i], id@));
                } else if i == k {
                    let next = old_ids[k as int];
                    lemma_lex_total(next, id@);
                    if j - 1 > k {
                        assert(lex_lt(next, old_ids[j - 1]));
                        lemma_lex_transitive(id@, next, old_ids[j - 1]);
                    }
                } else if i < k {
                    assert(lex_lt(old_ids[i], old_ids[j - 1]));
                } else {
                    assert(lex_lt(old_ids[i - 1], old_ids[j - 1]));
                }
            }
            assert(new_ids.to_set() =~= old_ids.to_set().insert(id@)) by {
                assert forall|x: Seq<char>| new_ids.to_set().contains(x) <==> old_ids.to_set().insert(
                    id@,
                ).contains(x) by {
                    if new_ids.contains(x) {
                        let i = choose|i: int| 0 <= i < new_ids.len() && new_ids[i] == x;
                        if i < k {
                            assert(old_ids[i] == x);
                        } else if i > k {
                            assert(old_ids[i - 1] == x);
                        }
                    }
                    if old_ids.contains(x) {
                        let i = choose|i: int| 0 <= i < old_ids.len() && old_ids[i] == x;
                        if i < k {
                            assert(new_ids[i] == x);
                        } else {
                            assert(new_ids[i + 1] == x);
                        }
                    }
                    if x == id@ {
                        assert(new_ids[k as int] == x);
                    }
                }
            }
        }
        self.selected = v;
    }

    /// Removes `id` from the selection.
    pub fn remove(&mut self, id: &str)
        ensures
            final(self)@ == old(self)@.remove(id@),
    {
        proof {
            use_type_invariant(&*self);
        }
        let key = chars_of(id);
        let (k, found) = self.locate(&key);
        if !found {
            assert(self@.remove(id@) =~= self@);
            return;
        }
        let ghost old_ids = self.ids();
        let mut v: Vec<String> = Vec::new();
        std::mem::swap(&mut v, &mut self.selected);
        assert(v@.map_values(|s: String| s@) == old_ids);
        v.remove(k);
        proof {
            let new_ids = v@.map_values(|s: String| s@);
            assert(new_ids =~= old_ids.remove(k as int));
            assert forall|i: int, j: int| 0 <= i < j < new_ids.len() implies lex_lt(
                #[trigger] new_ids[i],
                #[trigger] new_ids[j],
            ) by {
                if j < k {
                    assert(lex_lt(old_ids[i], old_ids[j]));
                } else if i < k {
                    assert(lex_lt(old_ids[i], old_ids[j + 1]));
                } else {
                    assert(lex_lt(old_ids[i + 1], old_ids[j + 1]));
                }
            }
            assert(new_ids.to_set() =~= old_ids.to_set().remove(id@)) by {
                assert forall|x: Seq<char>| new_ids.to_set().contains(x) <==> old_ids.to_set().remove(
                    id@,
                ).contains(x) by {
                    if new_ids.contains(x) {
                        let i = choose|i: int| 0 <= i < new_ids.len() && new_ids[i] == x;
                        if i < k {
                            assert(old_ids[i] == x);
                            assert(lex_lt(old_ids[i], old_ids[k as int]));
                            lemma_lex_irreflexive(x);
                        } else {
                            assert(old_ids[i + 1] == x);
                            assert(lex_lt(old_ids[k as int], old_ids[i + 1]));
                            lemma_lex_irreflexive(x);
                        }
                    }
                    if old_ids.contains(x) && x != id@ {
                        let i = choose|i: int| 0 <= i < old_ids.len() && old_ids[i] == x;
                        if i < k {
                            assert(new_ids[i] == x);
                        } else {
                            assert(i != k);
                            assert(new_ids[i - 1] == x);
                        }
                    }
                }
            }
        }
        self.selected = v;
    }

    /// Makes `id` the only selected entity.
    pub fn select_one(&mut self, id: &str)
        ensures
            final(self)@ == Set::<Seq<char>>::empty().insert(id@),
    {
        self.clear();
        self.add(id);
    }

    /// Makes exactly the given ids selected.
    pub fn select_many(&mut self, ids: Vec<String>)
        ensures
            final(self)@ == ids@.map_values(|s: String| s@).to_set(),
    {
        self.clear();
        let mut i: usize = 0;
        while i < ids.len()
            invariant
                i <= ids.len(),
                self@ == ids@.map_values(|s: String| s@).take(i as int).to_set(),
            decreases ids.len() - i,
        {
            self.add(ids[i].as_str());
            proof {
                let all = ids@.map_values(|s: String| s@);
                assert(all.take(i + 1) == all.take(i as int).push(all[i as int]));
                all.take(i as int).lemma_push_to_set_commute(all[i as int]);
            }
            i += 1;
        }
        assert(ids@.map_values(|s: String| s@).take(ids.len() as int) == ids@.map_values(
            |s: String| s@,
        ));
    }

    /// Selects `id` if it was not selected and deselects it if it was.
    pub fn toggle(&mut self, id: &str)
        ensures
            old(self)@.contains(id@) ==> final(self)@ == old(self)@.remove(id@),
            !old(self)@.contains(id@) ==> final(self)@ == old(self)@.insert(id@),
    {
        if self.is_selected(id) {
            self.remove(id);
        } else {
            self.add(id);
        }
    }

    /// Whether `id` is selected.
    pub fn is_selected(&self, id: &str) -> (r: bool)
        ensures
            r == self@.contains(id@),
    {
        let key = chars_of(id);
        let (_, found) = self.locate(&key);
        found
    }

    /// The selected ids, each once, in increasing order.
    pub fn selected_ids(&self) -> (r: Vec<String>)
        ensures
            strictly_increasing(r@.map_values(|s: String| s@)),
            r@.map_values(|s: String| s@).to_set() == self@,
    {
        proof {
            use_type_invariant(self);
        }
        let r = self.selected.clone();
        assert(r@.map_values(|s: String| s@) =~= self.ids()) by {
            assert forall|i: int| 0 <= i < r@.len() implies r@[i]@ == self.selected@[i]@ by {
                assert(vstd::pervasive::cloned(self.selected@[i], r@[i]));
            }
        }
        r
    }

    /// The number of selected entities.
    pub fn count(&self) -> (r: usize)
        ensures
            r == self@.len(),
    {
        proof {
            use_type_invariant(self);
            self.lemma_ids_facts();
        }
        self.selected.len()
    }

    /// Whether nothing is selected.
    pub fn is_empty(&self) -> (r: bool)
        ensures
            r == (self@.len() == 0),
    {
        proof {
            use_type_invariant(self);
            self.lemma_ids_facts();
        }
        self.selected.len() == 0
    }
}

/// Toggling the same id twice leaves the selection as it was.
pub proof fn law_toggle_twice(before: Set<Seq<char>>, middle: Set<Seq<char>>, after: Set<Seq<char>>, id: Seq<char>)
    requires
        before.contains(id) ==> middle == before.remove(id),
        !before.contains(id) ==> middle == before.insert(id),
        middle.contains(id) ==> after == middle.remove(id),
        !middle.contains(id) ==> after == middle.insert(id),
    ensures
        after == before,
{
    if before.contains(id) {
        assert(after =~= before);
    } else {
        assert(after =~= before);
    }
}

/// Two increasing listings of the same set of ids are identical: the order of
/// `selected_ids` is determined by the selection alone.
pub proof fn law_selected_ids_unique(a: Seq<Seq<char>>, b: Seq<Seq<char>>)
    requires
        strictly_increasing(a),
        strictly_increasing(b),
        a.to_set() == b.to_set(),
    ensures
        a == b,
    decreases a.len(),
{
    if a.len() == 0 {
        if b.len() > 0 {
            assert(b.to_set().contains(b[0]));
        }
    } else if b.len() == 0 {
        assert(a.to_set().contains(a[0]));
    } else {
        // The first elements are both the least element of the set.
        assert(a.to_set().contains(a[0]));
        assert(b.to_set().contains(b[0]));
        let ia = choose|i: int| 0 <= i < a.len() && a[i] == b[0];
        let ib = choose|i: int| 0 <= i < b.len() && b[i] == a[0];
        if ia > 0 {
            assert(lex_lt(a[0], a[ia]));
            if ib > 0 {
                assert(lex_lt(b[0], b[ib]));
                lemma_lex_asymmetric(a[0], b[0]);
            }
        }
        assert(a[0] == b[0]) by {
            if ia > 0 && ib > 0 {
                assert(lex_lt(a[0], b[0]));
                assert(lex_lt(b[0], a[0]));
                lemma_lex_asymmetric(a[0], b[0]);
            }
        }
        let ta = a.drop_first();
        let tb = b.drop_first();
        assert forall|x: Seq<char>| ta.to_set().contains(x) <==> tb.to_set().contains(x) by {
            if ta.contains(x) {
                let i = choose|i: int| 0 <= i < ta.len() && ta[i] == x;
                assert(a[i + 1] == x);
                assert(lex_lt(a[0], x));
                lemma_lex_irreflexive(x);
                assert(b.to_set().contains(x));
                let j = choose|j: int| 0 <= j < b.len() && b[j] == x;
                assert(j != 0);
                assert(tb[j - 1] == x);
            }
            if tb.contains(x) {
                let i = choose|i: int| 0 <= i < tb.len() && tb[i] == x;
                assert(b[i + 1] == x);
                assert(lex_lt(b[0], x));
                lemma_lex_irreflexive(x);
                assert(a.to_set().contains(x));
                let j = choose|j: int| 0 <= j < a.len() && a[j] == x;
                assert(j != 0);
                assert(ta[j - 1] == x);
            }
        }
        assert(ta.to_set() =~= tb.to_set());
        assert(strictly_increasing(ta)) by {
            assert forall|i: int, j: int| 0 <= i < j < ta.len() implies lex_lt(
                #[trigger] ta[i],
                #[trigger] ta[j],
            ) by {
                assert(lex_lt(a[i + 1], a[j + 1]));
            }
        }
        assert(strictly_increasing(tb)) by {
            assert forall|i: int, j: int| 0 <= i < j < tb.len() implies lex_lt(
                #[trigger] tb[i],
                #[trigger] tb[j],
            ) by {
                assert(lex_lt(b[i + 1], b[j + 1]));
            }
        }
        law_selected_ids_unique(ta, tb);
        assert(a =~= seq![a[0]] + ta);
        assert(b =~= seq![b[0]] + tb);
    }
}

/// The entity number of a legacy entity id `entity-<n>`.
pub open spec fn legacy_entity_id(id: Seq<char>) -> Option<u64> {
    if id.len() >= 7 && id.take(7) == "entity-"@ {
        parse_u64(id.skip(7))
    } else {
        None
    }
}

/// Reads the number from a legacy entity id `entity-<n>`.
pub fn parse_legacy_entity_id(entity_id: &str) -> (r: Option<u64>)
    ensures
        r == legacy_entity_id(entity_id@),
{
    let v = chars_of(entity_id);
    let prefix = chars_of("entity-");
    proof {
        reveal_strlit("entity-");
    }
    if v.len() < 7 {
        return None;
    }
    let head = sub_vec(&v, 0, 7);
    if !crate::text::chars_eq(&head, &prefix) {
        assert(head@ == v@.take(7));
        return None;
    }
    let rest = sub_vec(&v, 7, v.len());
    assert(rest@ == v@.skip(7));
    parse_u64_chars(&rest)
}

} // verus!
