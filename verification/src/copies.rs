//! Copies of entities: duplicating one entity, pasting copies of entities
//! taken from a document, looking entities up by id, and the key under
//! which a block definition is filed. The document keeps
//! no geometry, so the shift that the application gives a copy on screen is
//! not part of what is stated here.
use vstd::prelude::*;

use crate::document::{
    doc_state, entities_view, entity_view, lemma_str_map_insert, str_map_view, DocState, Document,
    Entity, EntityView,
};
use crate::layers::{find_entity, find_entity_index, lemma_find_entity};
use crate::layouts::{max_id, next_id_of};
use crate::text::{str_eq, trim, trimmed, upper, uppercase};
use std::collections::BTreeMap;

verus! {

broadcast use {vstd::std_specs::btree::group_btree_axioms, vstd::laws_cmp::group_laws_cmp};

/// The map with the entry of `from`, where it has one, copied to `to`.
pub open spec fn copied_entry(m: Map<u64, Seq<char>>, from: u64, to: u64) -> Map<u64, Seq<char>> {
    if m.contains_key(from) {
        m.insert(to, m[from])
    } else {
        m
    }
}

/// Duplicating entity `id`: none without such an entity; otherwise a copy
/// with the next free id and the source's layer, kind and text is added, and
/// the source's own color, line type and layout, where it has them, are given
/// to the copy.
pub open spec fn entity_duplicated(t: DocState, id: u64) -> Option<(u64, DocState)> {
    match find_entity(t.entities, id) {
        None => None,
        Some(i) => {
            let nid = next_id_of(t.entities);
            Some(
                (
                    nid,
                    DocState {
                        entities: t.entities.push(
                            (nid, t.entities[i].1, t.entities[i].2, t.entities[i].3),
                        ),
                        colors: copied_entry(t.colors, id, nid),
                        line_types: copied_entry(t.line_types, id, nid),
                        entity_layouts: copied_entry(t.entity_layouts, id, nid),
                        ..t
                    },
                ),
            )
        },
    }
}

/// The document after copies of the given entities are pasted, in turn:
/// each copy takes the next free id and the layer, kind and text of its
/// source, the color
/// and line type that the document gives the source's id, and the active
/// layout unless that is `Model`.
pub open spec fn pasted(t: DocState, src: Seq<EntityView>) -> DocState
    decreases src.len(),
{
    if src.len() == 0 {
        t
    } else {
        let p = pasted(t, src.drop_last());
        let e = src.last();
        let nid = next_id_of(p.entities);
        DocState {
            entities: p.entities.push((nid, e.1, e.2, e.3)),
            colors: copied_entry(p.colors, e.0, nid),
            line_types: copied_entry(p.line_types, e.0, nid),
            entity_layouts: if p.active_layout == "Model"@ {
                p.entity_layouts
            } else {
                p.entity_layouts.insert(nid, p.active_layout)
            },
            ..p
        }
    }
}

/// The ids that the pasted copies get, in order.
pub open spec fn pasted_ids(t: DocState, src: Seq<EntityView>) -> Seq<u64>
    decreases src.len(),
{
    if src.len() == 0 {
        seq![]
    } else {
        pasted_ids(t, src.drop_last()).push(next_id_of(pasted(t, src.drop_last()).entities))
    }
}

/// The entities with the given ids, in the order of the ids; an id without
/// an entity is passed over.
pub open spec fn entities_with_ids(es: Seq<EntityView>, ids: Seq<u64>) -> Seq<EntityView>
    decreases ids.len(),
{
    if ids.len() == 0 {
        seq![]
    } else {
        let prev = entities_with_ids(es, ids.drop_last());
        match find_entity(es, ids.last()) {
            Some(i) => prev.push(es[i]),
            None => prev,
        }
    }
}

impl Document {
    /// The key a block definition is filed under: its name trimmed and in
    /// upper case.
    pub fn block_definition_key(name: &str) -> (r: String)
        ensures
            r@ == upper(trim(name@)),
    {
        let t = trimmed(name);
        uppercase(t.as_str())
    }

    /// Copies the entry of `from` in a map of the document to `to`.
    fn copy_entry(m: &mut BTreeMap<u64, String>, from: u64, to: u64)
        ensures
            str_map_view(final(m)@) == copied_entry(str_map_view(old(m)@), from, to),
    {
        let ghost before = m@;
        match m.get(&from) {
            Some(v) => {
                let v = v.clone();
                m.insert(to, v);
                proof {
                    lemma_str_map_insert(before, to, m@[to]);
                }
            },
            None => {},
        }
    }

    /// Duplicates an entity (see `entity_duplicated`), giving the copy's id.
    pub fn duplicate_entity(&mut self, id: u64) -> (r: Option<u64>)
        ensures
            match entity_duplicated(doc_state(*old(self)), id) {
                Some((nid, s)) => r == Some(nid) && doc_state(*final(self)) == s
                    && final(self).modified,
                None => r.is_none() && *final(self) == *old(self),
            },
    {
        let ghost ev = entities_view(self.entities@);
        let i = match find_entity_index(&self.entities, id) {
            Some(i) => i,
            None => return None,
        };
        proof {
            lemma_find_entity(ev, id);
        }
        let nid = self.next_id();
        let mut copy = self.entities[i].copy();
        copy.id = nid;
        self.entities.push(copy);
        assert(entities_view(self.entities@) =~= ev.push(
            (nid, ev[i as int].1, ev[i as int].2, ev[i as int].3),
        ));
        Self::copy_entry(&mut self.entity_colors, id, nid);
        Self::copy_entry(&mut self.entity_line_types, id, nid);
        Self::copy_entry(&mut self.entity_layouts, id, nid);
        self.modified = true;
        Some(nid)
    }

    /// The entities with the given ids, in the order of the ids.
    pub fn entities_by_ids(&self, ids: &[u64]) -> (r: Vec<Entity>)
        ensures
            entities_view(r@) == entities_with_ids(entities_view(self.entities@), ids@),
    {
        let ghost ev = entities_view(self.entities@);
        let mut r: Vec<Entity> = Vec::new();
        let mut k: usize = 0;
        while k < ids.len()
            invariant
                k <= ids@.len(),
                ev == entities_view(self.entities@),
                entities_view(r@) == entities_with_ids(ev, ids@.take(k as int)),
            decreases ids@.len() - k,
        {
            proof {
                assert(ids@.take(k + 1).drop_last() == ids@.take(k as int));
                assert(ids@.take(k + 1).last() == ids@[k as int]);
            }
            proof {
                lemma_find_entity(ev, ids@[k as int]);
            }
            match find_entity_index(&self.entities, ids[k]) {
                Some(i) => {
                    let ghost before = entities_view(r@);
                    r.push(self.entities[i].copy());
                    assert(entities_view(r@) =~= before.push(ev[i as int]));
                },
                None => {},
            }
            k += 1;
        }
        assert(ids@.take(ids@.len() as int) == ids@);
        r
    }

    /// Pastes copies of the given entities (see `pasted`), giving the ids of
    /// the copies in order; the document counts as changed when anything was
    /// pasted.
    pub fn paste_entities(&mut self, entities: &[Entity]) -> (r: Vec<u64>)
        ensures
            doc_state(*final(self)) == pasted(doc_state(*old(self)), entities_view(entities@)),
            r@ == pasted_ids(doc_state(*old(self)), entities_view(entities@)),
            final(self).modified == (old(self).modified || entities@.len() > 0),
    {
        let ghost t = doc_state(*self);
        let ghost sv = entities_view(entities@);
        let mut ids: Vec<u64> = Vec::new();
        let mut k: usize = 0;
        let paper = !str_eq(self.active_layout.as_str(), "Model");
        while k < entities.len()
            invariant
                k <= entities@.len(),
                sv == entities_view(entities@),
                doc_state(*self) == pasted(t, sv.take(k as int)),
                ids@ == pasted_ids(t, sv.take(k as int)),
                self.active_layout@ == t.active_layout,
                paper == (t.active_layout != "Model"@),
                self.modified == (old(self).modified || k > 0),
            decreases entities@.len() - k,
        {
            proof {
                assert(sv.take(k + 1).drop_last() == sv.take(k as int));
                assert(sv.take(k + 1).last() == sv[k as int]);
                lemma_pasted_keeps(t, sv.take(k as int));
            }
            let source = entities[k].id;
            let nid = self.next_id();
            let ghost es = entities_view(self.entities@);
            let mut copy = entities[k].copy();
            copy.id = nid;
            self.entities.push(copy);
            assert(entities_view(self.entities@) =~= es.push(
                (nid, sv[k as int].1, sv[k as int].2, sv[k as int].3),
            ));
            Self::copy_entry(&mut self.entity_colors, source, nid);
            Self::copy_entry(&mut self.entity_line_types, source, nid);
            if paper {
                let ghost lm = self.entity_layouts@;
                let layout = self.active_layout.clone();
                self.entity_layouts.insert(nid, layout);
                proof {
                    lemma_str_map_insert(lm, nid, self.entity_layouts@[nid]);
                }
            }
            ids.push(nid);
            self.modified = true;
            k += 1;
        }
        assert(sv.take(entities@.len() as int) == sv);
        ids
    }
}

/// Pasting leaves the layers, layouts, active layout and viewports alone.
pub proof fn lemma_pasted_keeps(t: DocState, src: Seq<EntityView>)
    ensures
        pasted(t, src).layers == t.layers,
        pasted(t, src).active == t.active,
        pasted(t, src).layouts == t.layouts,
        pasted(t, src).active_layout == t.active_layout,
        pasted(t, src).viewports == t.viewports,
    decreases src.len(),
{
    if src.len() > 0 {
        lemma_pasted_keeps(t, src.drop_last());
    }
}

/// The pasted copies take the ids after the largest one in use, one by one.
proof fn lemma_pasted_ids(t: DocState, src: Seq<EntityView>)
    requires
        max_id(t.entities) + src.len() <= u64::MAX,
    ensures
        max_id(pasted(t, src).entities) == max_id(t.entities) + src.len(),
        pasted_ids(t, src).len() == src.len(),
        forall|k: int|
            0 <= k < src.len() ==> #[trigger] pasted_ids(t, src)[k] == max_id(t.entities) + 1 + k,
    decreases src.len(),
{
    if src.len() > 0 {
        let d = src.drop_last();
        lemma_pasted_ids(t, d);
        let p = pasted(t, d);
        let nid = next_id_of(p.entities);
        let after = pasted(t, src).entities;
        assert(after.drop_last() == p.entities);
        assert(after.last() == (nid, src.last().1, src.last().2, src.last().3));
        let ids = pasted_ids(t, src);
        assert forall|k: int| 0 <= k < src.len() implies #[trigger] ids[k] == max_id(t.entities) + 1
            + k by {
            if k < d.len() {
                assert(ids[k] == pasted_ids(t, d)[k]);
            }
        }
    }
}

/// Each pasted copy gets an id that no entity had before, and the ids
/// follow one another, as long as the ids do not run out (the largest id in
/// use plus the number of copies fits in a `u64`).
pub proof fn law_pasted_ids_are_fresh(t: DocState, src: Seq<EntityView>)
    requires
        max_id(t.entities) + src.len() <= u64::MAX,
    ensures
        pasted_ids(t, src).len() == src.len(),
        forall|k: int, j: int|
            0 <= k < src.len() && 0 <= j < t.entities.len() ==> #[trigger] pasted_ids(t, src)[k]
                != #[trigger] t.entities[j].0,
        forall|k: int, l: int|
            0 <= k < l < src.len() ==> #[trigger] pasted_ids(t, src)[k] < #[trigger] pasted_ids(
                t,
                src,
            )[l],
{
    lemma_pasted_ids(t, src);
    crate::layouts::lemma_max_id(t.entities);
}

/// The copy that duplicating an entity makes gets an id that no entity had
/// before, as long as the largest id in use is below `u64::MAX`; it has the
/// source's layer, kind and text.
pub proof fn law_duplicate_is_fresh(t: DocState, id: u64)
    requires
        max_id(t.entities) < u64::MAX,
    ensures
        match entity_duplicated(t, id) {
            Some((nid, s)) => (forall|j: int|
                0 <= j < t.entities.len() ==> #[trigger] t.entities[j].0 != nid) && ({
                let e = t.entities[find_entity(t.entities, id).unwrap()];
                s.entities.last() == (nid, e.1, e.2, e.3)
            }),
            None => find_entity(t.entities, id).is_none(),
        },
{
    crate::layouts::lemma_max_id(t.entities);
}

} // verus!
