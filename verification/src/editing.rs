//! Which entities the editing tools may touch: those shown in the active
//! layout, and for changes in place only those whose layer is not locked;
//! which entities the trim, extend, fillet, chamfer and block tools take;
//! whether the active layer takes new blocks and hatches; the summary of an
//! entity; and what text the inline text editor commits.
use vstd::prelude::*;

use crate::document::{
    doc_state, entities_view, kind_label, layout_name, DocState, Document, Entity, EntityKind,
};
use crate::layers::{find_entity, find_entity_index, lemma_find_entity, locks, shows};
use crate::layouts::layout_of;
use crate::text::{
    chars_eq, chars_of, decimal, decimal_string, owned, push_str, string_of, trim, trim_vec,
};

verus! {

/// Whether an id names an entity that shows in the active layout: the
/// entity exists, it is on that layout and its layer shows.
pub open spec fn visible_in_active(t: DocState, id: u64) -> bool {
    &&& layout_name(layout_of(t, id)) == layout_name(t.active_layout)
    &&& match find_entity(t.entities, id) {
        Some(i) => shows(t.layers, t.entities[i].1),
        None => false,
    }
}

/// Whether an id names an entity that shows in the active layout (see
/// `visible_in_active`).
fn shown_entity(document: &Document, id: u64) -> (r: bool)
    ensures
        r == visible_in_active(doc_state(*document), id),
{
    find_entity_index(&document.entities, id).is_some() && document.entity_visible_in_active_layout(id)
}

/// Whether an entity's layer is locked.
pub open spec fn entity_locked(t: DocState, id: u64) -> bool {
    match find_entity(t.entities, id) {
        Some(i) => locks(t.layers, t.entities[i].1),
        None => false,
    }
}

/// The selected ids that a move, rotation or other change in place may
/// touch, in selection order.
pub open spec fn editable_ids(t: DocState, selected: Seq<u64>) -> Seq<u64> {
    selected.filter(|id: u64| visible_in_active(t, id) && !entity_locked(t, id))
}

/// The selected ids that may be copied (locked layers allowed, since the
/// originals stay as they are), in selection order.
pub open spec fn copyable_ids(t: DocState, selected: Seq<u64>) -> Seq<u64> {
    selected.filter(|id: u64| visible_in_active(t, id))
}

/// The selected entities that a change in place may touch.
pub fn editable_selection_ids(document: &Document, selected: &[u64]) -> (r: Vec<u64>)
    ensures
        r@ == editable_ids(doc_state(*document), selected@),
{
    let ghost t = doc_state(*document);
    let ghost f = |id: u64| visible_in_active(t, id) && !entity_locked(t, id);
    let mut kept: Vec<u64> = Vec::new();
    let mut i: usize = 0;
    while i < selected.len()
        invariant
            i <= selected@.len(),
            t == doc_state(*document),
            f == (|id: u64| visible_in_active(t, id) && !entity_locked(t, id)),
            kept@ == selected@.take(i as int).filter(f),
        decreases selected@.len() - i,
    {
        proof {
            assert(selected@.take(i + 1).drop_last() == selected@.take(i as int));
            assert(selected@.take(i + 1).last() == selected@[i as int]);
            reveal_with_fuel(Seq::<_>::filter, 1);
        }
        let id = selected[i];
        if shown_entity(document, id) && !document.entity_layer_locked(id) {
            kept.push(id);
        }
        i += 1;
    }
    assert(selected@.take(selected@.len() as int) == selected@);
    kept
}

/// The selected entities that may be copied.
pub fn copyable_selection_ids(document: &Document, selected: &[u64]) -> (r: Vec<u64>)
    ensures
        r@ == copyable_ids(doc_state(*document), selected@),
{
    let ghost t = doc_state(*document);
    let ghost f = |id: u64| visible_in_active(t, id);
    let mut kept: Vec<u64> = Vec::new();
    let mut i: usize = 0;
    while i < selected.len()
        invariant
            i <= selected@.len(),
            t == doc_state(*document),
            f == (|id: u64| visible_in_active(t, id)),
            kept@ == selected@.take(i as int).filter(f),
        decreases selected@.len() - i,
    {
        proof {
            assert(selected@.take(i + 1).drop_last() == selected@.take(i as int));
            assert(selected@.take(i + 1).last() == selected@[i as int]);
            reveal_with_fuel(Seq::<_>::filter, 1);
        }
        let id = selected[i];
        if shown_entity(document, id) {
            kept.push(id);
        }
        i += 1;
    }
    assert(selected@.take(selected@.len() as int) == selected@);
    kept
}

/// Whether a block may be created or inserted: the active layer is not
/// locked.
pub fn active_layer_allows_block_edit(document: &Document) -> (r: bool)
    ensures
        r == !locks(doc_state(*document).layers, document.active_layer_name@),
{
    !document.layer_locked(document.active_layer_name.as_str())
}

/// Whether a hatch may be added: the active layer is not locked.
pub fn active_layer_allows_hatch(document: &Document) -> (r: bool)
    ensures
        r == !locks(doc_state(*document).layers, document.active_layer_name@),
{
    !document.layer_locked(document.active_layer_name.as_str())
}

/// The kind of the entity with this id.
pub open spec fn kind_of(t: DocState, id: u64) -> Option<EntityKind> {
    match find_entity(t.entities, id) {
        Some(i) => Some(t.entities[i].2),
        None => None,
    }
}

/// Whether the entity with this id is a line or a polyline.
pub open spec fn straight_edged(t: DocState, id: u64) -> bool {
    kind_of(t, id) == Some(EntityKind::Line) || kind_of(t, id) == Some(EntityKind::Polyline)
}

/// Whether trim and extend work on an entity: lines and polylines.
pub fn entity_supports_trim_extend(entity: &Entity) -> (r: bool)
    ensures
        r == (entity.kind == EntityKind::Line || entity.kind == EntityKind::Polyline),
{
    match entity.kind {
        EntityKind::Line | EntityKind::Polyline => true,
        _ => false,
    }
}

fn straight_edged_entity(document: &Document, id: u64) -> (r: bool)
    ensures
        r == straight_edged(doc_state(*document), id),
{
    proof {
        lemma_find_entity(entities_view(document.entities@), id);
    }
    match find_entity_index(&document.entities, id) {
        Some(i) => entity_supports_trim_extend(&document.entities[i]),
        None => false,
    }
}

/// Whether an entity can bound a trim or an extension: it shows in the
/// active layout and is a line or a polyline (a locked one too).
pub fn boundary_candidate(document: &Document, entity_id: u64) -> (r: bool)
    ensures
        r == (visible_in_active(doc_state(*document), entity_id) && straight_edged(
            doc_state(*document),
            entity_id,
        )),
{
    shown_entity(document, entity_id) && straight_edged_entity(document, entity_id)
}

/// Whether an entity can be trimmed or extended: a boundary candidate whose
/// layer is not locked.
pub fn target_candidate(document: &Document, entity_id: u64) -> (r: bool)
    ensures
        r == (visible_in_active(doc_state(*document), entity_id) && straight_edged(
            doc_state(*document),
            entity_id,
        ) && !entity_locked(doc_state(*document), entity_id)),
{
    boundary_candidate(document, entity_id) && !document.entity_layer_locked(entity_id)
}

/// Whether an entity can take a fillet or a chamfer: it shows in the active
/// layout, its layer is not locked, and it is a line or a polyline.
pub fn line_candidate(document: &Document, entity_id: u64) -> (r: bool)
    ensures
        r == (visible_in_active(doc_state(*document), entity_id) && !entity_locked(
            doc_state(*document),
            entity_id,
        ) && straight_edged(doc_state(*document), entity_id)),
{
    shown_entity(document, entity_id) && !document.entity_layer_locked(entity_id)
        && straight_edged_entity(document, entity_id)
}

/// The selected ids that a new block takes: those of existing entities that
/// are not block references themselves, in selection order.
pub open spec fn block_source_ids(t: DocState, selected: Seq<u64>) -> Seq<u64> {
    selected.filter(
        |id: u64| kind_of(t, id) is Some && kind_of(t, id) != Some(EntityKind::BlockReference),
    )
}

/// The selected entities that a new block takes (see `block_source_ids`).
pub fn block_selection_ids(document: &Document, selected: &[u64]) -> (r: Vec<u64>)
    ensures
        r@ == block_source_ids(doc_state(*document), selected@),
{
    let ghost t = doc_state(*document);
    let ghost f = |id: u64| kind_of(t, id) is Some && kind_of(t, id) != Some(EntityKind::BlockReference);
    let mut kept: Vec<u64> = Vec::new();
    let mut i: usize = 0;
    while i < selected.len()
        invariant
            i <= selected@.len(),
            t == doc_state(*document),
            f == (|id: u64| kind_of(t, id) is Some && kind_of(t, id) != Some(EntityKind::BlockReference)),
            kept@ == selected@.take(i as int).filter(f),
        decreases selected@.len() - i,
    {
        proof {
            assert(selected@.take(i + 1).drop_last() == selected@.take(i as int));
            assert(selected@.take(i + 1).last() == selected@[i as int]);
            reveal_with_fuel(Seq::<_>::filter, 1);
            lemma_find_entity(t.entities, selected@[i as int]);
        }
        let id = selected[i];
        match find_entity_index(&document.entities, id) {
            Some(j) => {
                match document.entities[j].kind {
                    EntityKind::BlockReference => {},
                    _ => {
                        kept.push(id);
                    },
                }
            },
            None => {},
        }
        i += 1;
    }
    assert(selected@.take(selected@.len() as int) == selected@);
    kept
}

/// The one-line summary of an entity: its kind, `#` and id, and its layer.
pub open spec fn entity_summary_text(t: DocState, id: u64) -> Option<Seq<char>> {
    match find_entity(t.entities, id) {
        Some(i) => Some(
            kind_label(t.entities[i].2) + " #"@ + decimal(t.entities[i].0 as nat) + " · layer "@
                + t.entities[i].1,
        ),
        None => None,
    }
}

/// Changing the text of a text entity: refused when the entity's layer is
/// locked, when no entity has the id, or when the first with that id is not
/// a text entity.
pub open spec fn text_changed(t: DocState, id: u64, value: Seq<char>) -> Option<DocState> {
    if entity_locked(t, id) {
        None
    } else {
        match find_entity(t.entities, id) {
            Some(i) => if t.entities[i].2 == EntityKind::Text {
                let e = t.entities[i];
                Some(DocState { entities: t.entities.update(i, (e.0, e.1, e.2, value)), ..t })
            } else {
                None
            },
            None => None,
        }
    }
}

impl Document {
    /// The summary of an entity (see `entity_summary_text`).
    pub fn entity_summary(&self, id: u64) -> (r: Option<String>)
        ensures
            match r {
                Some(s) => entity_summary_text(doc_state(*self), id) == Some(s@),
                None => entity_summary_text(doc_state(*self), id).is_none(),
            },
    {
        proof {
            lemma_find_entity(entities_view(self.entities@), id);
        }
        match find_entity_index(&self.entities, id) {
            Some(i) => {
                let e = &self.entities[i];
                let mut s = owned(e.kind.label());
                push_str(&mut s, " #");
                let digits = decimal_string(e.id as u128);
                push_str(&mut s, digits.as_str());
                push_str(&mut s, " · layer ");
                push_str(&mut s, e.layer.as_str());
                Some(s)
            },
            None => None,
        }
    }

    /// Changes the text of a text entity (see `text_changed`).
    pub fn set_text_entity_text(&mut self, id: u64, value: &str) -> (r: bool)
        ensures
            match text_changed(doc_state(*old(self)), id, value@) {
                Some(s) => r && doc_state(*final(self)) == s && final(self).modified,
                None => !r && *final(self) == *old(self),
            },
    {
        proof {
            lemma_find_entity(entities_view(self.entities@), id);
        }
        if self.entity_layer_locked(id) {
            return false;
        }
        match find_entity_index(&self.entities, id) {
            Some(i) => {
                match self.entities[i].kind {
                    EntityKind::Text => {},
                    _ => {
                        return false;
                    },
                }
                let ghost before = entities_view(self.entities@);
                let mut e = self.entities[i].copy();
                e.text = value.to_string();
                self.entities.set(i, e);
                self.modified = true;
                assert(entities_view(self.entities@) =~= before.update(
                    i as int,
                    (before[i as int].0, before[i as int].1, before[i as int].2, value@),
                ));
                true
            },
            None => false,
        }
    }
}

/// The text a new text entity gets from what was typed: the typed text
/// trimmed, or none when nothing but whitespace was typed.
pub fn normalize_text_for_creation(value: &str) -> (r: Option<String>)
    ensures
        match r {
            Some(t) => trim(value@).len() > 0 && t@ == trim(value@),
            None => trim(value@).len() == 0,
        },
{
    let text = trim_vec(&chars_of(value));
    if text.len() == 0 {
        None
    } else {
        Some(string_of(&text))
    }
}

/// Whether an edit of a text entity changes anything: the trimmed texts
/// differ and the new one is not empty.
pub fn should_apply_inline_text_edit(original_text: &str, new_text: &str) -> (r: bool)
    ensures
        r == (trim(original_text@) != trim(new_text@) && trim(new_text@).len() > 0),
{
    let a = trim_vec(&chars_of(original_text));
    let b = trim_vec(&chars_of(new_text));
    !chars_eq(&a, &b) && b.len() > 0
}

/// What a filter keeps was in the sequence and passes the test.
proof fn lemma_filter_keeps(s: Seq<u64>, pred: spec_fn(u64) -> bool, x: u64)
    ensures
        s.filter(pred).contains(x) ==> s.contains(x) && pred(x),
    decreases s.len(),
{
    reveal_with_fuel(Seq::<_>::filter, 1);
    if s.len() > 0 {
        let d = s.drop_last();
        lemma_filter_keeps(d, pred, x);
        if s.filter(pred).contains(x) {
            let k = choose|k: int| 0 <= k < s.filter(pred).len() && s.filter(pred)[k] == x;
            if k < d.filter(pred).len() {
                assert(d.filter(pred)[k] == x);
                let j = choose|j: int| 0 <= j < d.len() && d[j] == x;
                assert(s[j] == x);
            } else {
                assert(s[s.len() - 1] == x);
            }
        }
    }
}

/// What may be changed in place may also be copied, and everything that
/// may be copied was selected and shows in the active layout.
pub proof fn law_editable_within_copyable(t: DocState, selected: Seq<u64>, id: u64)
    ensures
        editable_ids(t, selected).contains(id) ==> copyable_ids(t, selected).contains(id)
            && !entity_locked(t, id),
        copyable_ids(t, selected).contains(id) ==> selected.contains(id) && visible_in_active(t, id),
{
    let f = |id: u64| visible_in_active(t, id) && !entity_locked(t, id);
    let g = |id: u64| visible_in_active(t, id);
    lemma_filter_keeps(selected, f, id);
    lemma_filter_keeps(selected, g, id);
    if editable_ids(t, selected).contains(id) {
        let j = choose|j: int| 0 <= j < selected.len() && selected[j] == id;
        selected.lemma_filter_contains(g, j);
    }
}

} // verus!
