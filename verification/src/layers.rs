//! The layers of a document and the layer of each entity: creating,
//! renaming and deleting layers, their visibility, lock, color and line type,
//! the active layer, and the colors and line types of entities, which fall
//! back to their layer's.
use vstd::prelude::*;

use crate::document::{
    color_value, doc_state, entities_view, EntityView, layer_state, layers_view, line_type_name,
    normalize_color_value, normalized_linetype, str_map_view, DocState, Document, Entity, Layer,
    LayerState,
};
use crate::document::{lemma_str_map_remove};
use crate::text::{owned, str_eq, trim, trimmed};



verus! {

broadcast use {vstd::std_specs::btree::group_btree_axioms, vstd::laws_cmp::group_laws_cmp};

/// The color of a new layer.
pub open spec fn default_color() -> Seq<char> {
    "#a3a7b0"@
}

/// A new layer: visible, unlocked, printable, in the default color and line
/// type.
pub open spec fn new_layer_state(name: Seq<char>) -> LayerState {
    LayerState {
        name,
        color: default_color(),
        visible: true,
        locked: false,
        line_type: "Continuous"@,
        printable: true,
    }
}

/// The index of the first layer with this name.
pub open spec fn find_layer(ls: Seq<LayerState>, name: Seq<char>) -> Option<int>
    decreases ls.len(),
{
    if ls.len() == 0 {
        None
    } else {
        match find_layer(ls.drop_last(), name) {
            Some(i) => Some(i),
            None => if ls.last().name == name {
                Some(ls.len() - 1)
            } else {
                None
            },
        }
    }
}

pub proof fn lemma_find_layer(ls: Seq<LayerState>, name: Seq<char>)
    ensures
        match find_layer(ls, name) {
            Some(i) => 0 <= i < ls.len() && ls[i].name == name && forall|j: int|
                0 <= j < i ==> #[trigger] ls[j].name != name,
            None => forall|j: int| 0 <= j < ls.len() ==> #[trigger] ls[j].name != name,
        },
    decreases ls.len(),
{
    if ls.len() > 0 {
        let d = ls.drop_last();
        lemma_find_layer(d, name);
        match find_layer(d, name) {
            Some(i) => {
                assert forall|j: int| 0 <= j < i implies #[trigger] ls[j].name != name by {
                    assert(d[j] == ls[j]);
                }
            },
            None => {
                assert forall|j: int| 0 <= j < ls.len() - 1 implies #[trigger] ls[j].name != name by {
                    assert(d[j] == ls[j]);
                }
            },
        }
    }
}

/// The index of the first entity with this id.
pub open spec fn find_entity(es: Seq<EntityView>, id: u64) -> Option<int>
    decreases es.len(),
{
    if es.len() == 0 {
        None
    } else {
        match find_entity(es.drop_last(), id) {
            Some(i) => Some(i),
            None => if es.last().0 == id {
                Some(es.len() - 1)
            } else {
                None
            },
        }
    }
}

pub proof fn lemma_find_entity(es: Seq<EntityView>, id: u64)
    ensures
        match find_entity(es, id) {
            Some(i) => 0 <= i < es.len() && es[i].0 == id && forall|j: int|
                0 <= j < i ==> #[trigger] es[j].0 != id,
            None => forall|j: int| 0 <= j < es.len() ==> #[trigger] es[j].0 != id,
        },
    decreases es.len(),
{
    if es.len() > 0 {
        let d = es.drop_last();
        lemma_find_entity(d, id);
        match find_entity(d, id) {
            Some(i) => {
                assert forall|j: int| 0 <= j < i implies #[trigger] es[j].0 != id by {
                    assert(d[j] == es[j]);
                }
            },
            None => {
                assert forall|j: int| 0 <= j < es.len() - 1 implies #[trigger] es[j].0 != id by {
                    assert(d[j] == es[j]);
                }
            },
        }
    }
}

/// Whether a layer shows: its flag, or `true` for a layer that does not
/// exist.
pub open spec fn shows(ls: Seq<LayerState>, name: Seq<char>) -> bool {
    match find_layer(ls, name) {
        Some(i) => ls[i].visible,
        None => true,
    }
}

/// Whether a layer is locked: its flag, or `false` for a layer that does not
/// exist.
pub open spec fn locks(ls: Seq<LayerState>, name: Seq<char>) -> bool {
    match find_layer(ls, name) {
        Some(i) => ls[i].locked,
        None => false,
    }
}

/// How many entities are on a layer.
pub open spec fn count_on(es: Seq<EntityView>, name: Seq<char>) -> nat
    decreases es.len(),
{
    if es.len() == 0 {
        0
    } else {
        count_on(es.drop_last(), name) + if es.last().1 == name {
            1nat
        } else {
            0nat
        }
    }
}

pub proof fn lemma_count_on(es: Seq<EntityView>, name: Seq<char>)
    ensures
        count_on(es, name) <= es.len(),
        count_on(es, name) == 0 <==> forall|j: int| 0 <= j < es.len() ==> #[trigger] es[j].1 != name,
    decreases es.len(),
{
    if es.len() > 0 {
        lemma_count_on(es.drop_last(), name);
        let d = es.drop_last();
        assert forall|j: int| 0 <= j < d.len() implies #[trigger] d[j] == es[j] by {}
        if count_on(es, name) == 0 {
            assert forall|j: int| 0 <= j < es.len() implies #[trigger] es[j].1 != name by {
                if j < d.len() {
                    assert(d[j] == es[j]);
                }
            }
        }
    }
}

/// The layers without those of this name.
pub open spec fn without_layer(ls: Seq<LayerState>, name: Seq<char>) -> Seq<LayerState>
    decreases ls.len(),
{
    if ls.len() == 0 {
        seq![]
    } else if ls.last().name == name {
        without_layer(ls.drop_last(), name)
    } else {
        without_layer(ls.drop_last(), name).push(ls.last())
    }
}

/// The entities without those with this id.
pub open spec fn without_entity(es: Seq<EntityView>, id: u64) -> Seq<EntityView>
    decreases es.len(),
{
    if es.len() == 0 {
        seq![]
    } else if es.last().0 == id {
        without_entity(es.drop_last(), id)
    } else {
        without_entity(es.drop_last(), id).push(es.last())
    }
}

pub proof fn lemma_without_entity_absent(es: Seq<EntityView>, id: u64)
    requires
        forall|j: int| 0 <= j < es.len() ==> #[trigger] es[j].0 != id,
    ensures
        without_entity(es, id) == es,
    decreases es.len(),
{
    if es.len() > 0 {
        let d = es.drop_last();
        assert forall|j: int| 0 <= j < d.len() implies #[trigger] d[j].0 != id by {
            assert(d[j] == es[j]);
        }
        lemma_without_entity_absent(d, id);
        assert(es.last().0 != id) by {
            assert(es[es.len() - 1].0 != id);
        }
        assert(es == d.push(es.last()));
    }
}

/// Removing an entity: refused when its layer is locked; otherwise every
/// entity with that id goes, with its own color, line type and layout, and
/// the flag says whether one went.
pub open spec fn entity_removed(t: DocState, id: u64) -> (bool, DocState) {
    match find_entity(t.entities, id) {
        None => (false, t),
        Some(i) => if locks(t.layers, t.entities[i].1) {
            (false, t)
        } else {
            (
                true,
                DocState {
                    entities: without_entity(t.entities, id),
                    colors: t.colors.remove(id),
                    line_types: t.line_types.remove(id),
                    entity_layouts: t.entity_layouts.remove(id),
                    ..t
                },
            )
        },
    }
}

/// The entities with those on layer `from` moved to layer `to`.
pub open spec fn moved_entities(es: Seq<EntityView>, from: Seq<char>, to: Seq<char>) -> Seq<
    EntityView,
> {
    es.map_values(
        |e: EntityView|
            if e.1 == from {
                (e.0, to, e.2, e.3)
            } else {
                e
            },
    )
}

impl Layer {
    /// A new layer with this name.
    pub fn new(name: &str) -> (r: Layer)
        ensures
            layer_state(r) == new_layer_state(name@),
    {
        Layer {
            name: owned(name),
            color: owned("#a3a7b0"),
            visible: true,
            locked: false,
            line_type: owned("Continuous"),
            printable: true,
        }
    }
}

fn find_layer_index(layers: &Vec<Layer>, name: &str) -> (r: Option<usize>)
    ensures
        match r {
            Some(i) => find_layer(layers_view(layers@), name@) == Some(i as int),
            None => find_layer(layers_view(layers@), name@).is_none(),
        },
{
    let ghost lv = layers_view(layers@);
    let mut i: usize = 0;
    while i < layers.len()
        invariant
            i <= layers.len(),
            lv == layers_view(layers@),
            forall|j: int| 0 <= j < i ==> #[trigger] lv[j].name != name@,
        decreases layers.len() - i,
    {
        if str_eq(layers[i].name.as_str(), name) {
            proof {
                lemma_find_layer(lv, name@);
                match find_layer(lv, name@) {
                    Some(k) => {
                        if k > i {
                            assert(lv[i as int].name == name@);
                        }
                        if k < i {
                            assert(lv[k].name != name@);
                        }
                    },
                    None => {
                        assert(lv[i as int].name == name@);
                    },
                }
            }
            return Some(i);
        }
        i += 1;
    }
    proof {
        lemma_find_layer(lv, name@);
        if let Some(k) = find_layer(lv, name@) {
            assert(lv[k].name != name@);
        }
    }
    None
}

pub(crate) fn find_entity_index(entities: &Vec<Entity>, id: u64) -> (r: Option<usize>)
    ensures
        match r {
            Some(i) => find_entity(entities_view(entities@), id) == Some(i as int),
            None => find_entity(entities_view(entities@), id).is_none(),
        },
{
    let ghost ev = entities_view(entities@);
    let mut i: usize = 0;
    while i < entities.len()
        invariant
            i <= entities.len(),
            ev == entities_view(entities@),
            forall|j: int| 0 <= j < i ==> #[trigger] ev[j].0 != id,
        decreases entities.len() - i,
    {
        if entities[i].id == id {
            proof {
                lemma_find_entity(ev, id);
                match find_entity(ev, id) {
                    Some(k) => {
                        if k > i {
                            assert(ev[i as int].0 == id);
                        }
                        if k < i {
                            assert(ev[k].0 != id);
                        }
                    },
                    None => {
                        assert(ev[i as int].0 == id);
                    },
                }
            }
            return Some(i);
        }
        i += 1;
    }
    proof {
        lemma_find_entity(ev, id);
        if let Some(k) = find_entity(ev, id) {
            assert(ev[k].0 != id);
        }
    }
    None
}


/// The layers of a new document.
pub open spec fn initial_layers() -> Seq<LayerState> {
    seq![
        new_layer_state("Default"@),
        new_layer_state("Construction"@),
        new_layer_state("Dimensions"@),
        new_layer_state("Mesh Reference"@),
    ]
}

/// A table whose active layer exists: an empty list gets a `Default` layer,
/// and a missing active layer is replaced by the first layer.
pub open spec fn with_active_layer(t: DocState) -> DocState {
    let layers = if t.layers.len() == 0 {
        seq![new_layer_state("Default"@)]
    } else {
        t.layers
    };
    let active = if find_layer(layers, t.active).is_some() {
        t.active
    } else {
        layers[0].name
    };
    DocState { layers, active, ..t }
}

/// Creating a layer: refused for a name that is empty after trimming or
/// already used; otherwise a new layer with the trimmed name is appended.
pub open spec fn created(t: DocState, name: Seq<char>) -> Option<DocState> {
    let n = trim(name);
    if n.len() == 0 || find_layer(t.layers, n).is_some() {
        None
    } else {
        Some(DocState { layers: t.layers.push(new_layer_state(n)), ..t })
    }
}

/// Renaming a layer: refused for a new name that is empty after trimming or
/// already used, or a layer that does not exist; otherwise the layer takes
/// the trimmed name, and so do the entities on it and the active layer when
/// it was that layer.
pub open spec fn renamed(t: DocState, old: Seq<char>, new: Seq<char>) -> Option<DocState> {
    let n = trim(new);
    if n.len() == 0 || find_layer(t.layers, n).is_some() {
        None
    } else {
        match find_layer(t.layers, old) {
            None => None,
            Some(i) => Some(
                DocState {
                    layers: t.layers.update(i, LayerState { name: n, ..t.layers[i] }),
                    active: if t.active == old {
                        n
                    } else {
                        t.active
                    },
                    entities: moved_entities(t.entities, old, n),
                    ..t
                },
            ),
        }
    }
}

/// Whether a layer may be deleted: it exists, it is not the only layer, and
/// no entity is on it.
pub open spec fn deletable(t: DocState, name: Seq<char>) -> bool {
    &&& t.layers.len() > 1
    &&& find_layer(t.layers, name).is_some()
    &&& count_on(t.entities, name) == 0
}

/// Deleting an empty layer: every layer of that name goes, and the active
/// layer is kept valid.
pub open spec fn deleted(t: DocState, name: Seq<char>) -> DocState {
    with_active_layer(DocState { layers: without_layer(t.layers, name), ..t })
}

/// The text of the layer field for a selection: the active layer when the
/// selection is empty or names no entity; the common layer of the selected
/// entities; or `(mixed)`.
pub open spec fn selected_layers(t: DocState, ids: Seq<u64>) -> Seq<Seq<char>>
    decreases ids.len(),
{
    if ids.len() == 0 {
        seq![]
    } else {
        let prev = selected_layers(t, ids.drop_last());
        match find_entity(t.entities, ids.last()) {
            Some(i) => prev.push(t.entities[i].1),
            None => prev,
        }
    }
}

pub open spec fn layer_field_text(t: DocState, ids: Seq<u64>) -> Seq<char> {
    let ls = selected_layers(t, ids);
    if ids.len() == 0 || ls.len() == 0 {
        t.active
    } else if forall|k: int| 0 <= k < ls.len() ==> #[trigger] ls[k] == ls[0] {
        ls[0]
    } else {
        "(mixed)"@
    }
}

impl Document {
    /// The active layer, if it exists.
    pub fn active_layer(&self) -> (r: Option<&Layer>)
        ensures
            match r {
                Some(l) => match find_layer(layers_view(self.layers@), self.active_layer_name@) {
                    Some(i) => layer_state(*l) == layers_view(self.layers@)[i],
                    None => false,
                },
                None => find_layer(layers_view(self.layers@), self.active_layer_name@).is_none(),
            },
    {
        proof {
            lemma_find_layer(layers_view(self.layers@), self.active_layer_name@);
        }
        match find_layer_index(&self.layers, self.active_layer_name.as_str()) {
            Some(i) => Some(&self.layers[i]),
            None => None,
        }
    }

    /// Makes an existing layer the active one.
    pub fn set_active_layer_name(&mut self, layer_name: &str) -> (r: bool)
        ensures
            r == find_layer(layers_view(old(self).layers@), layer_name@).is_some(),
            r ==> doc_state(*final(self)) == (DocState {
                active: layer_name@,
                ..doc_state(*old(self))
            }) && final(self).modified,
            !r ==> *final(self) == *old(self),
    {
        if find_layer_index(&self.layers, layer_name).is_some() {
            self.active_layer_name = owned(layer_name);
            self.modified = true;
            return true;
        }
        false
    }

    /// Makes sure the active layer exists (see `with_active_layer`).
    pub fn ensure_active_layer_exists(&mut self)
        ensures
            doc_state(*final(self)) == with_active_layer(doc_state(*old(self))),
            final(self).modified == old(self).modified,
    {
        if self.layers.len() == 0 {
            self.layers.push(Layer::new("Default"));
            assert(layers_view(self.layers@) =~= seq![new_layer_state("Default"@)]);
        }
        if find_layer_index(&self.layers, self.active_layer_name.as_str()).is_none() {
            self.active_layer_name = self.layers[0].name.clone();
        }
    }

    /// Creates a layer (see `created`).
    pub fn create_layer(&mut self, name: &str) -> (r: bool)
        ensures
            match created(doc_state(*old(self)), name@) {
                Some(s) => r && doc_state(*final(self)) == s && final(self).modified,
                None => !r && *final(self) == *old(self),
            },
    {
        let name = trimmed(name);
        if name.as_str().is_empty() || find_layer_index(&self.layers, name.as_str()).is_some() {
            return false;
        }
        let ghost before = layers_view(self.layers@);
        self.layers.push(Layer::new(name.as_str()));
        self.modified = true;
        assert(layers_view(self.layers@) =~= before.push(new_layer_state(name@)));
        true
    }

    /// Renames a layer (see `renamed`).
    pub fn rename_layer(&mut self, old_name: &str, new_name: &str) -> (r: bool)
        ensures
            match renamed(doc_state(*old(self)), old_name@, new_name@) {
                Some(s) => r && doc_state(*final(self)) == s && final(self).modified,
                None => !r && *final(self) == *old(self),
            },
    {
        let new_name = trimmed(new_name);
        if new_name.as_str().is_empty() || find_layer_index(&self.layers, new_name.as_str()).is_some() {
            return false;
        }
        let i = match find_layer_index(&self.layers, old_name) {
            Some(i) => i,
            None => {
                return false;
            },
        };
        let ghost before = doc_state(*self);
        proof {
            lemma_find_layer(before.layers, old_name@);
        }
        let layer = Layer {
            name: new_name.clone(),
            color: self.layers[i].color.clone(),
            visible: self.layers[i].visible,
            locked: self.layers[i].locked,
            line_type: self.layers[i].line_type.clone(),
            printable: self.layers[i].printable,
        };
        self.layers.set(i, layer);
        assert(layers_view(self.layers@) =~= before.layers.update(
            i as int,
            LayerState { name: new_name@, ..before.layers[i as int] },
        ));
        let ghost ev = before.entities;
        let mut entities: Vec<Entity> = Vec::new();
        std::mem::swap(&mut entities, &mut self.entities);
        assert(entities_view(entities@) == ev);
        let mut j: usize = 0;
        while j < entities.len()
            invariant
                j <= entities.len(),
                ev.len() == entities.len(),
                entities_view(entities@) == moved_entities(ev.take(j as int), old_name@, new_name@)
                    + ev.skip(j as int),
            decreases entities.len() - j,
        {
            proof {
                assert(entities_view(entities@)[j as int] == ev[j as int]);
            }
            if str_eq(entities[j].layer.as_str(), old_name) {
                let id = entities[j].id;
                let kind = entities[j].kind;
                let text = entities[j].text.clone();
                let ghost cur = entities_view(entities@);
                entities.set(j, Entity { id, layer: new_name.clone(), kind, text });
                proof {
                    assert(entities_view(entities@) =~= cur.update(
                        j as int,
                        (id, new_name@, cur[j as int].2, cur[j as int].3),
                    ));
                }
            }
            proof {
                assert(moved_entities(ev.take(j + 1), old_name@, new_name@) =~= moved_entities(
                    ev.take(j as int),
                    old_name@,
                    new_name@,
                ).push(
                    if ev[j as int].1 == old_name@ {
                        (ev[j as int].0, new_name@, ev[j as int].2, ev[j as int].3)
                    } else {
                        ev[j as int]
                    },
                ));
                assert(entities_view(entities@) =~= moved_entities(
                    ev.take(j + 1),
                    old_name@,
                    new_name@,
                ) + ev.skip(j + 1));
            }
            j += 1;
        }
        proof {
            assert(ev.take(ev.len() as int) == ev);
            assert(ev.skip(ev.len() as int) =~= Seq::<EntityView>::empty());
            assert(entities_view(entities@) =~= moved_entities(ev, old_name@, new_name@));
        }
        self.entities = entities;
        if str_eq(self.active_layer_name.as_str(), old_name) {
            self.active_layer_name = new_name.clone();
        }
        self.modified = true;
        true
    }

    /// How many entities are on a layer.
    pub fn entity_count_on_layer(&self, layer_name: &str) -> (r: usize)
        ensures
            r == count_on(entities_view(self.entities@), layer_name@),
    {
        let ghost ev = entities_view(self.entities@);
        let mut count: usize = 0;
        let mut j: usize = 0;
        while j < self.entities.len()
            invariant
                j <= self.entities.len(),
                ev == entities_view(self.entities@),
                count == count_on(ev.take(j as int), layer_name@),
                count <= j,
            decreases self.entities.len() - j,
        {
            proof {
                assert(ev.take(j + 1).drop_last() == ev.take(j as int));
                assert(ev.take(j + 1).last() == ev[j as int]);
            }
            if str_eq(self.entities[j].layer.as_str(), layer_name) {
                count += 1;
            }
            j += 1;
        }
        assert(ev.take(self.entities.len() as int) == ev);
        count
    }

    /// Whether a layer may be deleted (see `deletable`).
    pub fn can_delete_layer(&self, layer_name: &str) -> (r: bool)
        ensures
            r == deletable(doc_state(*self), layer_name@),
    {
        self.layers.len() > 1 && find_layer_index(&self.layers, layer_name).is_some()
            && self.entity_count_on_layer(layer_name) == 0
    }

    /// Deletes a layer that may be deleted (see `deleted`).
    pub fn delete_layer_if_empty(&mut self, layer_name: &str) -> (r: bool)
        ensures
            r == deletable(doc_state(*old(self)), layer_name@),
            r ==> doc_state(*final(self)) == deleted(doc_state(*old(self)), layer_name@)
                && final(self).modified,
            !r ==> *final(self) == *old(self),
    {
        if !self.can_delete_layer(layer_name) {
            return false;
        }
        let ghost lv = layers_view(self.layers@);
        let mut kept: Vec<Layer> = Vec::new();
        let mut i: usize = 0;
        while i < self.layers.len()
            invariant
                i <= self.layers.len(),
                lv == layers_view(self.layers@),
                layers_view(kept@) == without_layer(lv.take(i as int), layer_name@),
            decreases self.layers.len() - i,
        {
            proof {
                assert(lv.take(i + 1).drop_last() == lv.take(i as int));
                assert(lv.take(i + 1).last() == lv[i as int]);
            }
            if !str_eq(self.layers[i].name.as_str(), layer_name) {
                let l = &self.layers[i];
                let copy = Layer {
                    name: l.name.clone(),
                    color: l.color.clone(),
                    visible: l.visible,
                    locked: l.locked,
                    line_type: l.line_type.clone(),
                    printable: l.printable,
                };
                let ghost before = layers_view(kept@);
                kept.push(copy);
                assert(layers_view(kept@) =~= before.push(lv[i as int]));
            }
            i += 1;
        }
        assert(lv.take(self.layers.len() as int) == lv);
        self.layers = kept;
        self.ensure_active_layer_exists();
        self.modified = true;
        true
    }

    /// Shows or hides a layer. Refused (`false`, nothing changes) when the
    /// layer does not exist or already has that visibility.
    pub fn set_layer_visible(&mut self, layer_name: &str, visible: bool) -> (r: bool)
        ensures
            match find_layer(layers_view(old(self).layers@), layer_name@) {
                Some(i) => if layers_view(old(self).layers@)[i].visible == visible {
                    !r && *final(self) == *old(self)
                } else {
                    r && final(self).modified && doc_state(*final(self)) == (DocState {
                        layers: layers_view(old(self).layers@).update(
                            i,
                            LayerState { visible, ..layers_view(old(self).layers@)[i] },
                        ),
                        ..doc_state(*old(self))
                    })
                },
                None => !r && *final(self) == *old(self),
            },
    {
        let i = match find_layer_index(&self.layers, layer_name) {
            Some(i) => i,
            None => {
                return false;
            },
        };
        proof {
            lemma_find_layer(layers_view(self.layers@), layer_name@);
        }
        if self.layers[i].visible == visible {
            return false;
        }
        let ghost lv = layers_view(self.layers@);
        let l = &self.layers[i];
        let changed = Layer {
            name: l.name.clone(),
            color: l.color.clone(),
            visible,
            locked: l.locked,
            line_type: l.line_type.clone(),
            printable: l.printable,
        };
        self.layers.set(i, changed);
        self.modified = true;
        assert(layers_view(self.layers@) =~= lv.update(
            i as int,
            LayerState { visible, ..lv[i as int] },
        ));
        true
    }

    /// Locks or unlocks a layer. Refused (`false`, nothing changes) when the
    /// layer does not exist or is already so.
    pub fn set_layer_locked(&mut self, layer_name: &str, locked: bool) -> (r: bool)
        ensures
            match find_layer(layers_view(old(self).layers@), layer_name@) {
                Some(i) => if layers_view(old(self).layers@)[i].locked == locked {
                    !r && *final(self) == *old(self)
                } else {
                    r && final(self).modified && doc_state(*final(self)) == (DocState {
                        layers: layers_view(old(self).layers@).update(
                            i,
                            LayerState { locked, ..layers_view(old(self).layers@)[i] },
                        ),
                        ..doc_state(*old(self))
                    })
                },
                None => !r && *final(self) == *old(self),
            },
    {
        let i = match find_layer_index(&self.layers, layer_name) {
            Some(i) => i,
            None => {
                return false;
            },
        };
        proof {
            lemma_find_layer(layers_view(self.layers@), layer_name@);
        }
        if self.layers[i].locked == locked {
            return false;
        }
        let ghost lv = layers_view(self.layers@);
        let l = &self.layers[i];
        let changed = Layer {
            name: l.name.clone(),
            color: l.color.clone(),
            visible: l.visible,
            locked,
            line_type: l.line_type.clone(),
            printable: l.printable,
        };
        self.layers.set(i, changed);
        self.modified = true;
        assert(layers_view(self.layers@) =~= lv.update(
            i as int,
            LayerState { locked, ..lv[i as int] },
        ));
        true
    }

    /// Sets a layer's color, stored as `normalize_color_value` gives it (the
    /// default color for a text that names none). Refused (`false`, nothing
    /// changes) when the layer does not exist or already has that color.
    pub fn set_layer_color(&mut self, layer_name: &str, color: &str) -> (r: bool)
        ensures
            ({
                let c = match color_value(color@) {
                    Some(v) => v,
                    None => default_color(),
                };
                match find_layer(layers_view(old(self).layers@), layer_name@) {
                    Some(i) => if layers_view(old(self).layers@)[i].color == c {
                        !r && *final(self) == *old(self)
                    } else {
                        r && final(self).modified && doc_state(*final(self)) == (DocState {
                            layers: layers_view(old(self).layers@).update(
                                i,
                                LayerState { color: c, ..layers_view(old(self).layers@)[i] },
                            ),
                            ..doc_state(*old(self))
                        })
                    },
                    None => !r && *final(self) == *old(self),
                }
            }),
    {
        let i = match find_layer_index(&self.layers, layer_name) {
            Some(i) => i,
            None => {
                return false;
            },
        };
        proof {
            lemma_find_layer(layers_view(self.layers@), layer_name@);
        }
        let normalized = match normalize_color_value(color) {
            Some(v) => v,
            None => owned("#a3a7b0"),
        };
        if str_eq(self.layers[i].color.as_str(), normalized.as_str()) {
            return false;
        }
        let ghost lv = layers_view(self.layers@);
        let l = &self.layers[i];
        let changed = Layer {
            name: l.name.clone(),
            color: normalized,
            visible: l.visible,
            locked: l.locked,
            line_type: l.line_type.clone(),
            printable: l.printable,
        };
        let ghost c = changed.color@;
        self.layers.set(i, changed);
        self.modified = true;
        assert(layers_view(self.layers@) =~= lv.update(
            i as int,
            LayerState { color: c, ..lv[i as int] },
        ));
        true
    }

    /// Sets a layer's line type, stored as `normalized_linetype` gives it.
    /// Refused (`false`, nothing changes) when the layer does not exist or
    /// already has that line type.
    pub fn set_layer_line_type(&mut self, layer_name: &str, line_type: &str) -> (r: bool)
        ensures
            match find_layer(layers_view(old(self).layers@), layer_name@) {
                Some(i) => if layers_view(old(self).layers@)[i].line_type == line_type_name(
                    line_type@,
                ) {
                    !r && *final(self) == *old(self)
                } else {
                    r && final(self).modified && doc_state(*final(self)) == (DocState {
                        layers: layers_view(old(self).layers@).update(
                            i,
                            LayerState {
                                line_type: line_type_name(line_type@),
                                ..layers_view(old(self).layers@)[i]
                            },
                        ),
                        ..doc_state(*old(self))
                    })
                },
                None => !r && *final(self) == *old(self),
            },
    {
        let i = match find_layer_index(&self.layers, layer_name) {
            Some(i) => i,
            None => {
                return false;
            },
        };
        proof {
            lemma_find_layer(layers_view(self.layers@), layer_name@);
        }
        let normalized = normalized_linetype(line_type);
        if str_eq(self.layers[i].line_type.as_str(), normalized.as_str()) {
            return false;
        }
        let ghost lv = layers_view(self.layers@);
        let l = &self.layers[i];
        let changed = Layer {
            name: l.name.clone(),
            color: l.color.clone(),
            visible: l.visible,
            locked: l.locked,
            line_type: normalized,
            printable: l.printable,
        };
        self.layers.set(i, changed);
        self.modified = true;
        assert(layers_view(self.layers@) =~= lv.update(
            i as int,
            LayerState { line_type: line_type_name(line_type@), ..lv[i as int] },
        ));
        true
    }

    /// Whether a layer shows (a layer that does not exist does).
    pub fn layer_visible(&self, layer_name: &str) -> (r: bool)
        ensures
            r == shows(layers_view(self.layers@), layer_name@),
    {
        proof {
            lemma_find_layer(layers_view(self.layers@), layer_name@);
        }
        match find_layer_index(&self.layers, layer_name) {
            Some(i) => self.layers[i].visible,
            None => true,
        }
    }

    /// Whether a layer is locked (a layer that does not exist is not).
    pub fn layer_locked(&self, layer_name: &str) -> (r: bool)
        ensures
            r == locks(layers_view(self.layers@), layer_name@),
    {
        proof {
            lemma_find_layer(layers_view(self.layers@), layer_name@);
        }
        match find_layer_index(&self.layers, layer_name) {
            Some(i) => self.layers[i].locked,
            None => false,
        }
    }

    /// Whether an entity's layer shows (an unknown entity counts as shown).
    pub fn entity_layer_visible(&self, id: u64) -> (r: bool)
        ensures
            r == match find_entity(entities_view(self.entities@), id) {
                Some(i) => shows(layers_view(self.layers@), entities_view(self.entities@)[i].1),
                None => true,
            },
    {
        proof {
            lemma_find_entity(entities_view(self.entities@), id);
        }
        match find_entity_index(&self.entities, id) {
            Some(i) => self.layer_visible(self.entities[i].layer.as_str()),
            None => true,
        }
    }

    /// Whether an entity's layer is locked (an unknown entity's is not).
    pub fn entity_layer_locked(&self, id: u64) -> (r: bool)
        ensures
            r == match find_entity(entities_view(self.entities@), id) {
                Some(i) => locks(layers_view(self.layers@), entities_view(self.entities@)[i].1),
                None => false,
            },
    {
        proof {
            lemma_find_entity(entities_view(self.entities@), id);
        }
        match find_entity_index(&self.entities, id) {
            Some(i) => self.layer_locked(self.entities[i].layer.as_str()),
            None => false,
        }
    }

    /// The layer of an entity, if the entity and its layer exist.
    pub fn entity_layer(&self, id: u64) -> (r: Option<&Layer>)
        ensures
            match r {
                Some(l) => match find_entity(entities_view(self.entities@), id) {
                    Some(e) => match find_layer(
                        layers_view(self.layers@),
                        entities_view(self.entities@)[e].1,
                    ) {
                        Some(i) => layer_state(*l) == layers_view(self.layers@)[i],
                        None => false,
                    },
                    None => false,
                },
                None => match find_entity(entities_view(self.entities@), id) {
                    Some(e) => find_layer(
                        layers_view(self.layers@),
                        entities_view(self.entities@)[e].1,
                    ).is_none(),
                    None => true,
                },
            },
    {
        proof {
            lemma_find_entity(entities_view(self.entities@), id);
        }
        let e = match find_entity_index(&self.entities, id) {
            Some(e) => e,
            None => {
                return None;
            },
        };
        proof {
            lemma_find_layer(layers_view(self.layers@), entities_view(self.entities@)[e as int].1);
        }
        match find_layer_index(&self.layers, self.entities[e].layer.as_str()) {
            Some(i) => Some(&self.layers[i]),
            None => None,
        }
    }

    /// Moves an entity to a layer, creating the layer when missing. Refused
    /// when the entity's layer is locked; an unknown entity is refused after
    /// the layer has been created.
    pub fn set_entity_layer(&mut self, id: u64, layer: &str) -> (r: bool)
        ensures
            ({
                let t = doc_state(*old(self));
                let locked = match find_entity(t.entities, id) {
                    Some(i) => locks(t.layers, t.entities[i].1),
                    None => false,
                };
                let layers = if find_layer(t.layers, layer@).is_some() {
                    t.layers
                } else {
                    t.layers.push(new_layer_state(layer@))
                };
                if locked {
                    !r && *final(self) == *old(self)
                } else {
                    match find_entity(t.entities, id) {
                        Some(i) => r && final(self).modified && doc_state(*final(self)) == (
                        DocState {
                            layers,
                            entities: t.entities.update(
                                i,
                                (id, layer@, t.entities[i].2, t.entities[i].3),
                            ),
                            ..t
                        }),
                        None => !r && final(self).modified == old(self).modified && doc_state(
                            *final(self),
                        ) == (DocState { layers, ..t }),
                    }
                }
            }),
    {
        if self.entity_layer_locked(id) {
            return false;
        }
        if find_layer_index(&self.layers, layer).is_none() {
            let ghost before = layers_view(self.layers@);
            self.layers.push(Layer::new(layer));
            assert(layers_view(self.layers@) =~= before.push(new_layer_state(layer@)));
        }
        proof {
            lemma_find_entity(entities_view(self.entities@), id);
        }
        match find_entity_index(&self.entities, id) {
            Some(i) => {
                let ghost before = entities_view(self.entities@);
                let mut e = self.entities[i].copy();
                e.set_layer(layer);
                self.entities.set(i, e);
                self.modified = true;
                assert(entities_view(self.entities@) =~= before.update(
                    i as int,
                    (id, layer@, before[i as int].2, before[i as int].3),
                ));
                true
            },
            None => false,
        }
    }

    /// Removes an entity (see `entity_removed`); `true` when one went.
    pub fn remove_entity(&mut self, id: u64) -> (r: bool)
        ensures
            (r, doc_state(*final(self))) == entity_removed(doc_state(*old(self)), id),
            final(self).modified == (old(self).modified || r),
    {
        if self.entity_layer_locked(id) {
            return false;
        }
        let ghost ev = entities_view(self.entities@);
        proof {
            lemma_find_entity(ev, id);
        }
        let mut kept: Vec<Entity> = Vec::new();
        let mut removed = false;
        let mut i: usize = 0;
        while i < self.entities.len()
            invariant
                i <= self.entities.len(),
                ev == entities_view(self.entities@),
                entities_view(kept@) == without_entity(ev.take(i as int), id),
                removed == exists|j: int| 0 <= j < i && #[trigger] ev[j].0 == id,
            decreases self.entities.len() - i,
        {
            proof {
                assert(ev.take(i + 1).drop_last() == ev.take(i as int));
                assert(ev.take(i + 1).last() == ev[i as int]);
            }
            if self.entities[i].id != id {
                let e = self.entities[i].copy();
                let ghost before = entities_view(kept@);
                kept.push(e);
                assert(entities_view(kept@) =~= before.push(ev[i as int]));
            } else {
                removed = true;
            }
            proof {
                if removed {
                    if ev[i as int].0 == id {
                        assert(exists|j: int| 0 <= j < i + 1 && #[trigger] ev[j].0 == id);
                    }
                }
            }
            i += 1;
        }
        assert(ev.take(self.entities.len() as int) == ev);
        if removed {
            self.entities = kept;
            self.entity_colors.remove(&id);
            self.entity_line_types.remove(&id);
            self.entity_layouts.remove(&id);
            proof {
                lemma_str_map_remove(old(self).entity_colors@, id);
                lemma_str_map_remove(old(self).entity_line_types@, id);
                lemma_str_map_remove(old(self).entity_layouts@, id);
            }
            self.modified = true;
        } else {
            proof {
                lemma_without_entity_absent(ev, id);
            }
        }
        removed
    }

    /// The text of the layer field for the selected entities (see
    /// `layer_field_text`).
    pub fn selection_layer_field_text(&self, selected: &[u64]) -> (r: String)
        ensures
            r@ == layer_field_text(doc_state(*self), selected@),
    {
        let ghost t = doc_state(*self);
        if selected.len() == 0 {
            return self.active_layer_name.clone();
        }
        let mut layers: Vec<String> = Vec::new();
        let mut k: usize = 0;
        while k < selected.len()
            invariant
                k <= selected.len(),
                t == doc_state(*self),
                layers@.map_values(|l: String| l@) == selected_layers(t, selected@.take(k as int)),
            decreases selected.len() - k,
        {
            proof {
                assert(selected@.take(k + 1).drop_last() == selected@.take(k as int));
                assert(selected@.take(k + 1).last() == selected@[k as int]);
                lemma_find_entity(t.entities, selected@[k as int]);
            }
            match find_entity_index(&self.entities, selected[k]) {
                Some(i) => {
                    let ghost before = layers@.map_values(|l: String| l@);
                    layers.push(self.entities[i].layer.clone());
                    assert(layers@.map_values(|l: String| l@) =~= before.push(t.entities[i as int].1));
                },
                None => {},
            }
            k += 1;
        }
        assert(selected@.take(selected.len() as int) == selected@);
        let ghost lv = layers@.map_values(|l: String| l@);
        if layers.len() == 0 {
            return self.active_layer_name.clone();
        }
        let mut m: usize = 1;
        while m < layers.len()
            invariant
                1 <= m <= layers.len(),
                selected.len() > 0,
                t == doc_state(*self),
                lv == selected_layers(t, selected@),
                lv == layers@.map_values(|l: String| l@),
                forall|q: int| 0 <= q < m ==> #[trigger] lv[q] == lv[0],
            decreases layers.len() - m,
        {
            if !str_eq(layers[m].as_str(), layers[0].as_str()) {
                proof {
                    assert(lv[m as int] != lv[0]);
                    assert(!(forall|q: int| 0 <= q < lv.len() ==> #[trigger] lv[q] == lv[0]));
                }
                return owned("(mixed)");
            }
            m += 1;
        }
        let first = layers[0].clone();
        assert(first@ == lv[0]);
        first
    }
}

/// The color of an entity: its own, else its layer's (if the entity and its
/// layer exist).
pub open spec fn color_of(t: DocState, id: u64) -> Option<Seq<char>> {
    if t.colors.contains_key(id) {
        Some(t.colors[id])
    } else {
        match find_entity(t.entities, id) {
            Some(e) => match find_layer(t.layers, t.entities[e].1) {
                Some(i) => Some(t.layers[i].color),
                None => None,
            },
            None => None,
        }
    }
}

/// The line type of an entity: its own, else its layer's, else
/// `Continuous`.
pub open spec fn line_type_of(t: DocState, id: u64) -> Seq<char> {
    if t.line_types.contains_key(id) {
        t.line_types[id]
    } else {
        match find_entity(t.entities, id) {
            Some(e) => match find_layer(t.layers, t.entities[e].1) {
                Some(i) => t.layers[i].line_type,
                None => "Continuous"@,
            },
            None => "Continuous"@,
        }
    }
}

/// Whether an entity exists and its layer is not locked: the condition for
/// changing its style.
pub open spec fn editable(t: DocState, id: u64) -> bool {
    match find_entity(t.entities, id) {
        Some(e) => !locks(t.layers, t.entities[e].1),
        None => false,
    }
}

impl Document {
    /// The color an entity is drawn in.
    pub fn entity_color(&self, id: u64) -> (r: Option<&str>)
        ensures
            match r {
                Some(c) => color_of(doc_state(*self), id) == Some(c@),
                None => color_of(doc_state(*self), id).is_none(),
            },
    {
        match self.entity_colors.get(&id) {
            Some(c) => Some(c.as_str()),
            None => match self.entity_layer(id) {
                Some(layer) => Some(layer.color.as_str()),
                None => None,
            },
        }
    }

    /// The line type an entity is drawn with.
    pub fn entity_line_type(&self, id: u64) -> (r: &str)
        ensures
            r@ == line_type_of(doc_state(*self), id),
    {
        match self.entity_line_types.get(&id) {
            Some(t) => t.as_str(),
            None => match self.entity_layer(id) {
                Some(layer) => layer.line_type.as_str(),
                None => "Continuous",
            },
        }
    }

    /// Gives an entity its own color (as `normalize_color_value` stores it),
    /// or takes it away for a text that names none (`default` or empty).
    /// Refused when the entity does not exist or its layer is locked.
    pub fn set_entity_color(&mut self, id: u64, color: &str) -> (r: bool)
        ensures
            r == editable(doc_state(*old(self)), id),
            r ==> final(self).modified && doc_state(*final(self)) == (DocState {
                colors: match color_value(color@) {
                    Some(c) => doc_state(*old(self)).colors.insert(id, c),
                    None => doc_state(*old(self)).colors.remove(id),
                },
                ..doc_state(*old(self))
            }),
            !r ==> *final(self) == *old(self),
    {
        proof {
            lemma_find_entity(entities_view(self.entities@), id);
        }
        if self.entity_layer_locked(id) {
            return false;
        }
        if find_entity_index(&self.entities, id).is_none() {
            return false;
        }
        let ghost m = self.entity_colors@;
        match normalize_color_value(color) {
            Some(c) => {
                self.entity_colors.insert(id, c);
                proof {
                    crate::document::lemma_str_map_insert(m, id, self.entity_colors@[id]);
                }
            },
            None => {
                self.entity_colors.remove(&id);
                proof {
                    lemma_str_map_remove(m, id);
                }
            },
        }
        self.modified = true;
        true
    }

    /// Gives an entity its own line type (as `normalized_linetype` gives
    /// it). Refused when the entity does not exist or its layer is locked.
    pub fn set_entity_line_type(&mut self, id: u64, line_type: &str) -> (r: bool)
        ensures
            r == editable(doc_state(*old(self)), id),
            r ==> final(self).modified && doc_state(*final(self)) == (DocState {
                line_types: doc_state(*old(self)).line_types.insert(id, line_type_name(line_type@)),
                ..doc_state(*old(self))
            }),
            !r ==> *final(self) == *old(self),
    {
        proof {
            lemma_find_entity(entities_view(self.entities@), id);
        }
        if self.entity_layer_locked(id) {
            return false;
        }
        if find_entity_index(&self.entities, id).is_none() {
            return false;
        }
        let t = normalized_linetype(line_type);
        let ghost m = self.entity_line_types@;
        self.entity_line_types.insert(id, t);
        proof {
            crate::document::lemma_str_map_insert(m, id, self.entity_line_types@[id]);
        }
        self.modified = true;
        true
    }

    /// Takes an entity's own line type away, so that it follows its layer.
    /// `true` when there was one to take; refused when the entity does not
    /// exist or its layer is locked.
    pub fn clear_entity_line_type(&mut self, id: u64) -> (r: bool)
        ensures
            r == (editable(doc_state(*old(self)), id) && doc_state(*old(self)).line_types.contains_key(id)),
            r ==> final(self).modified && doc_state(*final(self)) == (DocState {
                line_types: doc_state(*old(self)).line_types.remove(id),
                ..doc_state(*old(self))
            }),
            !r ==> doc_state(*final(self)) == doc_state(*old(self)) && final(self).modified == old(self).modified,
    {
        proof {
            lemma_find_entity(entities_view(self.entities@), id);
        }
        if self.entity_layer_locked(id) {
            return false;
        }
        if find_entity_index(&self.entities, id).is_none() {
            return false;
        }
        let ghost m = self.entity_line_types@;
        let changed = self.entity_line_types.remove(&id).is_some();
        proof {
            lemma_str_map_remove(m, id);
            if !changed {
                assert(m.remove(id) =~= m);
            }
        }
        if changed {
            self.modified = true;
        }
        changed
    }
}

// ---------------------------------------------------------------------------
// Laws
// ---------------------------------------------------------------------------

/// No two layers share a name.
pub open spec fn names_distinct(ls: Seq<LayerState>) -> bool {
    forall|i: int, j: int| 0 <= i < j < ls.len() ==> (#[trigger] ls[i]).name != (#[trigger] ls[j]).name
}

pub proof fn lemma_without_layer(ls: Seq<LayerState>, name: Seq<char>)
    ensures
        forall|x: LayerState| #[trigger] without_layer(ls, name).contains(x) ==> ls.contains(x) && x.name
            != name,
        (forall|j: int| 0 <= j < ls.len() ==> #[trigger] ls[j].name != name) ==> without_layer(ls, name)
            == ls,
        names_distinct(ls) ==> names_distinct(without_layer(ls, name)),
    decreases ls.len(),
{
    if ls.len() > 0 {
        let d = ls.drop_last();
        lemma_without_layer(d, name);
        assert forall|j: int| 0 <= j < d.len() implies #[trigger] d[j] == ls[j] by {}
        let w = without_layer(d, name);
        assert forall|x: LayerState| without_layer(ls, name).contains(x) implies ls.contains(x)
            && x.name != name by {
            if w.contains(x) {
                assert(d.contains(x));
                let k = choose|k: int| 0 <= k < d.len() && d[k] == x;
                assert(ls[k] == x);
            } else {
                assert(x == ls.last());
                assert(ls[ls.len() - 1] == x);
            }
        }
        if forall|j: int| 0 <= j < ls.len() ==> #[trigger] ls[j].name != name {
            assert forall|j: int| 0 <= j < d.len() implies #[trigger] d[j].name != name by {
                assert(d[j] == ls[j]);
            }
            assert(ls.last().name != name) by {
                assert(ls[ls.len() - 1].name != name);
            }
            assert(ls == d.push(ls.last()));
        }
        if names_distinct(ls) {
            assert(names_distinct(d)) by {
                assert forall|i: int, j: int| 0 <= i < j < d.len() implies (#[trigger] d[i]).name
                    != (#[trigger] d[j]).name by {
                    assert(d[i] == ls[i] && d[j] == ls[j]);
                }
            }
            if ls.last().name != name {
                let r = w.push(ls.last());
                assert forall|i: int, j: int| 0 <= i < j < r.len() implies (#[trigger] r[i]).name
                    != (#[trigger] r[j]).name by {
                    if j == r.len() - 1 {
                        assert(w.contains(r[i]));
                        let k = choose|k: int| 0 <= k < d.len() && d[k] == r[i];
                        assert(ls[k] == r[i]);
                        assert(ls[ls.len() - 1] == r[j]);
                    }
                }
            }
        }
    }
}

/// Creating a layer keeps layer names distinct.
pub proof fn law_create_keeps_names_distinct(t: DocState, name: Seq<char>)
    requires
        names_distinct(t.layers),
        created(t, name).is_some(),
    ensures
        names_distinct(created(t, name).unwrap().layers),
{
    let n = trim(name);
    lemma_find_layer(t.layers, n);
    let r = created(t, name).unwrap().layers;
    assert forall|i: int, j: int| 0 <= i < j < r.len() implies (#[trigger] r[i]).name
        != (#[trigger] r[j]).name by {
        if j == r.len() - 1 {
            assert(r[i] == t.layers[i]);
        } else {
            assert(r[i] == t.layers[i] && r[j] == t.layers[j]);
        }
    }
}

/// Renaming a layer keeps layer names distinct.
pub proof fn law_rename_keeps_names_distinct(t: DocState, old: Seq<char>, new: Seq<char>)
    requires
        names_distinct(t.layers),
        renamed(t, old, new).is_some(),
    ensures
        names_distinct(renamed(t, old, new).unwrap().layers),
{
    let n = trim(new);
    lemma_find_layer(t.layers, n);
    lemma_find_layer(t.layers, old);
    let k = find_layer(t.layers, old).unwrap();
    let r = renamed(t, old, new).unwrap().layers;
    assert forall|i: int, j: int| 0 <= i < j < r.len() implies (#[trigger] r[i]).name
        != (#[trigger] r[j]).name by {
        if i == k {
            assert(r[j] == t.layers[j]);
        } else if j == k {
            assert(r[i] == t.layers[i]);
        } else {
            assert(r[i] == t.layers[i] && r[j] == t.layers[j]);
        }
    }
}

/// Deleting a layer keeps layer names distinct.
pub proof fn law_delete_keeps_names_distinct(t: DocState, name: Seq<char>)
    requires
        names_distinct(t.layers),
    ensures
        names_distinct(deleted(t, name).layers),
{
    lemma_without_layer(t.layers, name);
    let w = without_layer(t.layers, name);
    if w.len() == 0 {
        assert(names_distinct(seq![new_layer_state("Default"@)]));
    }
}

/// A layer created and then deleted again leaves the table as it was, when
/// the active layer exists and no entity names the new layer.
pub proof fn law_create_then_delete(t: DocState, name: Seq<char>)
    requires
        created(t, name).is_some(),
        t.layers.len() >= 1,
        find_layer(t.layers, t.active).is_some(),
        count_on(t.entities, trim(name)) == 0,
    ensures
        deletable(created(t, name).unwrap(), trim(name)),
        deleted(created(t, name).unwrap(), trim(name)) == t,
{
    let n = trim(name);
    let t2 = created(t, name).unwrap();
    lemma_find_layer(t.layers, n);
    lemma_find_layer(t2.layers, n);
    assert(t2.layers[t2.layers.len() - 1].name == n);
    lemma_without_layer(t.layers, n);
    assert(t2.layers.drop_last() == t.layers);
    assert(without_layer(t2.layers, n) == t.layers);
    let d = DocState { layers: without_layer(t2.layers, n), ..t2 };
    assert(d.layers == t.layers);
    assert(with_active_layer(d) == t);
}

/// Renaming a layer and renaming it back restores the table, when the old
/// name is already trimmed, names are distinct, and neither the entities nor
/// the active layer used the new name before.
pub proof fn law_rename_round_trip(t: DocState, old: Seq<char>, new: Seq<char>)
    requires
        names_distinct(t.layers),
        renamed(t, old, new).is_some(),
        trim(old) == old,
        old.len() > 0,
        count_on(t.entities, trim(new)) == 0,
        t.active != trim(new),
    ensures
        renamed(renamed(t, old, new).unwrap(), trim(new), old) == Some(t),
{
    let n = trim(new);
    let t2 = renamed(t, old, new).unwrap();
    lemma_find_layer(t.layers, n);
    lemma_find_layer(t.layers, old);
    let k = find_layer(t.layers, old).unwrap();
    law_rename_keeps_names_distinct(t, old, new);
    lemma_find_layer(t2.layers, old);
    lemma_find_layer(t2.layers, n);
    // `old` is gone from the renamed layers, and `n` is at `k` only.
    assert forall|j: int| 0 <= j < t2.layers.len() implies #[trigger] t2.layers[j].name != old by {
        if j != k {
            assert(t2.layers[j] == t.layers[j]);
        }
    }
    assert(find_layer(t2.layers, old).is_none());
    assert(t2.layers[k].name == n);
    assert(find_layer(t2.layers, n) == Some(k)) by {
        if find_layer(t2.layers, n) != Some(k) {
            let m = find_layer(t2.layers, n).unwrap();
            assert(m < k);
            assert(t2.layers[m] == t.layers[m]);
        }
    }
    assert(trim(n) == n) by {
        crate::document::lemma_trim_of_trimmed(new);
    }
    let t3 = renamed(t2, n, old).unwrap();
    assert(t3.layers[k] == t.layers[k]);
    assert(t3.layers =~= t.layers);
    lemma_count_on(t.entities, n);
    assert(t3.entities =~= t.entities) by {
        assert(t3.entities.len() == t.entities.len());
        assert forall|j: int| 0 <= j < t.entities.len() implies #[trigger] t3.entities[j]
            == t.entities[j] by {
            assert(t.entities[j].1 != n);
            assert(t2.entities[j] == if t.entities[j].1 == old {
                (t.entities[j].0, n, t.entities[j].2, t.entities[j].3)
            } else {
                t.entities[j]
            });
        }
    }
    assert(t3.active == t.active);
}

} // verus!
