//! The layouts of a document: the model space and paper layouts, the layout
//! of each entity, the active layout, creating, deleting and duplicating
//! paper layouts, and the viewports placed on them.
use vstd::prelude::*;

use crate::document::{
    doc_state, entities_view, entity_view, references_view, sheets_view, views_view, DrawingSheet,
    DrawingView, EntityView, ReferenceView, layout_name, layout_state, layouts_view, layers_view,
    lemma_str_map_insert, normalized_layout_name, str_map_view, viewports_view, DocState, Document,
    Entity, Layout, LayoutKind, LayoutState, LayoutViewport,
};
use crate::layers::{entity_removed, find_entity, initial_layers, lemma_find_entity, shows};
use crate::text::{decimal, decimal_string, lemma_decimal_injective, owned, push_str, str_eq};
use crate::document::Layer;
use std::collections::BTreeMap;

verus! {

broadcast use {vstd::std_specs::btree::group_btree_axioms, vstd::laws_cmp::group_laws_cmp};

/// The index of the first layout with this name.
pub open spec fn find_layout(ls: Seq<LayoutState>, name: Seq<char>) -> Option<int>
    decreases ls.len(),
{
    if ls.len() == 0 {
        None
    } else {
        match find_layout(ls.drop_last(), name) {
            Some(i) => Some(i),
            None => if ls.last().name == name {
                Some(ls.len() - 1)
            } else {
                None
            },
        }
    }
}

pub proof fn lemma_find_layout(ls: Seq<LayoutState>, name: Seq<char>)
    ensures
        match find_layout(ls, name) {
            Some(i) => 0 <= i < ls.len() && ls[i].name == name && forall|j: int|
                0 <= j < i ==> #[trigger] ls[j].name != name,
            None => forall|j: int| 0 <= j < ls.len() ==> #[trigger] ls[j].name != name,
        },
    decreases ls.len(),
{
    if ls.len() > 0 {
        let d = ls.drop_last();
        lemma_find_layout(d, name);
        match find_layout(d, name) {
            Some(i) => {
                assert forall|j: int| 0 <= j < i implies #[trigger] ls[j].name != name by {
                    assert(d[j] == ls[j]);
                }
            },
            None => {
                assert forall|j: int| 0 <= j < ls.len() - 1 implies #[trigger] ls[j].name != name by {
                    assert(d[j] == ls[j]);
                }
            },
        }
    }
}

/// A new layout of this (normalized) name: the model space for `Model`, a
/// paper layout with its paper background otherwise.
pub open spec fn new_layout_state(name: Seq<char>) -> LayoutState {
    let kind = if name == "Model"@ {
        LayoutKind::Model
    } else {
        LayoutKind::Paper
    };
    LayoutState { name, kind, paper_background: kind == LayoutKind::Paper }
}

/// The document with a layout of the normalized name, added at the end when
/// missing.
pub open spec fn with_layout(t: DocState, name: Seq<char>) -> DocState {
    let n = layout_name(name);
    if find_layout(t.layouts, n).is_some() {
        t
    } else {
        DocState { layouts: t.layouts.push(new_layout_state(n)), ..t }
    }
}

/// The layout an entity is on: its recorded paper layout, else `Model`.
pub open spec fn layout_of(t: DocState, id: u64) -> Seq<char> {
    if t.entity_layouts.contains_key(id) {
        t.entity_layouts[id]
    } else {
        "Model"@
    }
}

/// The largest entity id, or 0 without entities.
pub open spec fn max_id(es: Seq<EntityView>) -> u64
    decreases es.len(),
{
    if es.len() == 0 {
        0
    } else {
        let m = max_id(es.drop_last());
        if es.last().0 > m {
            es.last().0
        } else {
            m
        }
    }
}

pub proof fn lemma_max_id(es: Seq<EntityView>)
    ensures
        forall|j: int| 0 <= j < es.len() ==> #[trigger] es[j].0 <= max_id(es),
    decreases es.len(),
{
    if es.len() > 0 {
        let d = es.drop_last();
        lemma_max_id(d);
        assert forall|j: int| 0 <= j < es.len() implies #[trigger] es[j].0 <= max_id(es) by {
            if j < d.len() {
                assert(d[j] == es[j]);
            }
        }
    }
}

/// The id a new entity gets: one more than the largest, saturating.
pub open spec fn next_id_of(es: Seq<EntityView>) -> u64 {
    if max_id(es) == u64::MAX {
        u64::MAX
    } else {
        (max_id(es) + 1) as u64
    }
}

/// The layouts of a new document: the model space alone.
pub open spec fn initial_layouts() -> Seq<LayoutState> {
    seq![LayoutState { name: "Model"@, kind: LayoutKind::Model, paper_background: false }]
}

/// The document after an entity is added on a layer and a layout (the
/// active one when none is given): the layout is created when missing, and
/// the entity's layout is recorded unless it is `Model`.
pub open spec fn entity_added(t: DocState, e: EntityView, layout: Option<Seq<char>>) -> DocState {
    let n = layout_name(
        match layout {
            Some(l) => l,
            None => t.active_layout,
        },
    );
    let u = with_layout(t, n);
    DocState {
        entities: t.entities.push(e),
        entity_layouts: if n == "Model"@ {
            u.entity_layouts
        } else {
            u.entity_layouts.insert(e.0, n)
        },
        ..u
    }
}

impl Document {
    /// A new document: version 1, named `Untitled`, the layers `Default`,
    /// `Construction`, `Dimensions` and `Mesh Reference` with `Default`
    /// active, the model space alone and active, no entities, viewports or
    /// references, the front, top, right and isometric views, and one A4
    /// landscape sheet.
    pub fn new_empty() -> (r: Document)
        ensures
            doc_state(r) == (DocState {
                layers: initial_layers(),
                active: "Default"@,
                entities: Seq::<EntityView>::empty(),
                colors: Map::<u64, Seq<char>>::empty(),
                line_types: Map::<u64, Seq<char>>::empty(),
                layouts: initial_layouts(),
                active_layout: "Model"@,
                entity_layouts: Map::<u64, Seq<char>>::empty(),
                viewports: Seq::<(u64, Seq<char>, bool)>::empty(),
                references: Seq::<ReferenceView>::empty(),
                version: 1,
                name: "Untitled"@,
                views: seq![
                    ("Front"@, "front"@),
                    ("Top"@, "top"@),
                    ("Right"@, "right"@),
                    ("Isometric"@, "isometric-placeholder"@),
                ],
                sheets: seq![("A4 Drawing"@, "A4"@, "landscape"@, "first-angle"@)],
            }),
            !r.modified,
    {
        let mut layers: Vec<Layer> = Vec::new();
        layers.push(Layer::new("Default"));
        layers.push(Layer::new("Construction"));
        layers.push(Layer::new("Dimensions"));
        layers.push(Layer::new("Mesh Reference"));
        let mut layouts: Vec<Layout> = Vec::new();
        layouts.push(Layout { name: owned("Model"), kind: LayoutKind::Model, paper_background: false });
        let mut views: Vec<DrawingView> = Vec::new();
        views.push(DrawingView::new("Front", "front"));
        views.push(DrawingView::new("Top", "top"));
        views.push(DrawingView::new("Right", "right"));
        views.push(DrawingView::new("Isometric", "isometric-placeholder"));
        let mut sheets: Vec<DrawingSheet> = Vec::new();
        sheets.push(
            DrawingSheet {
                name: owned("A4 Drawing"),
                format: owned("A4"),
                orientation: owned("landscape"),
                projection: owned("first-angle"),
            },
        );
        let r = Document {
            version: 1,
            name: owned("Untitled"),
            layers,
            active_layer_name: owned("Default"),
            entities: Vec::new(),
            entity_colors: BTreeMap::new(),
            entity_line_types: BTreeMap::new(),
            active_layout: owned("Model"),
            layouts,
            entity_layouts: BTreeMap::new(),
            layout_viewports: Vec::new(),
            imported_references: Vec::new(),
            views,
            sheets,
            modified: false,
        };
        assert(layers_view(r.layers@) =~= initial_layers());
        assert(entities_view(r.entities@) =~= Seq::<EntityView>::empty());
        assert(layouts_view(r.layouts@) =~= initial_layouts());
        assert(viewports_view(r.layout_viewports@) =~= Seq::<(u64, Seq<char>, bool)>::empty());
        assert(references_view(r.imported_references@) =~= Seq::<ReferenceView>::empty());
        assert(views_view(r.views@) =~= seq![
            ("Front"@, "front"@),
            ("Top"@, "top"@),
            ("Right"@, "right"@),
            ("Isometric"@, "isometric-placeholder"@),
        ]);
        assert(sheets_view(r.sheets@) =~= seq![("A4 Drawing"@, "A4"@, "landscape"@, "first-angle"@)]);
        assert(str_map_view(r.entity_colors@) =~= Map::<u64, Seq<char>>::empty());
        assert(str_map_view(r.entity_line_types@) =~= Map::<u64, Seq<char>>::empty());
        assert(str_map_view(r.entity_layouts@) =~= Map::<u64, Seq<char>>::empty());
        r
    }

    /// The id for a new entity: one more than the largest id in use
    /// (saturating), 1 for an empty document.
    pub fn next_id(&self) -> (r: u64)
        ensures
            r == next_id_of(entities_view(self.entities@)),
    {
        let ghost ev = entities_view(self.entities@);
        let mut m: u64 = 0;
        let mut i: usize = 0;
        while i < self.entities.len()
            invariant
                i <= self.entities.len(),
                ev == entities_view(self.entities@),
                m == max_id(ev.take(i as int)),
            decreases self.entities.len() - i,
        {
            proof {
                assert(ev.take(i + 1).drop_last() == ev.take(i as int));
                assert(ev.take(i + 1).last() == ev[i as int]);
            }
            if self.entities[i].id > m {
                m = self.entities[i].id;
            }
            i += 1;
        }
        assert(ev.take(self.entities.len() as int) == ev);
        m.saturating_add(1)
    }

    /// Makes sure a layout of this name exists (see `with_layout`).
    pub fn ensure_layout(&mut self, name: &str)
        ensures
            doc_state(*final(self)) == with_layout(doc_state(*old(self)), name@),
            final(self).modified == old(self).modified,
    {
        let n = normalized_layout_name(name);
        let ghost lv = layouts_view(self.layouts@);
        let mut i: usize = 0;
        while i < self.layouts.len()
            invariant
                i <= self.layouts.len(),
                *self == *old(self),
                n@ == layout_name(name@),
                lv == layouts_view(self.layouts@),
                forall|j: int| 0 <= j < i ==> #[trigger] lv[j].name != n@,
            decreases self.layouts.len() - i,
        {
            if str_eq(self.layouts[i].name.as_str(), n.as_str()) {
                proof {
                    lemma_find_layout(lv, n@);
                    assert(lv[i as int].name == n@);
                }
                return;
            }
            i += 1;
        }
        proof {
            lemma_find_layout(lv, n@);
            if let Some(k) = find_layout(lv, n@) {
                assert(lv[k].name != n@);
            }
        }
        let kind = if str_eq(n.as_str(), "Model") {
            LayoutKind::Model
        } else {
            LayoutKind::Paper
        };
        let paper = match kind {
            LayoutKind::Paper => true,
            LayoutKind::Model => false,
        };
        let layout = Layout { name: n, kind, paper_background: paper };
        let ghost nv = layout.name@;
        self.layouts.push(layout);
        assert(layouts_view(self.layouts@) =~= lv.push(new_layout_state(nv)));
    }

    /// Adds an entity on a layout (see `entity_added`).
    pub fn add_entity_on_layout(&mut self, entity: Entity, layout: Option<&str>)
        ensures
            doc_state(*final(self)) == entity_added(
                doc_state(*old(self)),
                entity_view(entity),
                match layout {
                    Some(l) => Some(l@),
                    None => None,
                },
            ),
            final(self).modified,
    {
        let name = match layout {
            Some(l) => normalized_layout_name(l),
            None => normalized_layout_name(self.active_layout.as_str()),
        };
        proof {
            crate::document::law_layout_name_idempotent(
                match layout {
                    Some(l) => l@,
                    None => old(self).active_layout@,
                },
            );
        }
        self.ensure_layout(name.as_str());
        let id = entity.id;
        if !str_eq(name.as_str(), "Model") {
            let ghost m = self.entity_layouts@;
            self.entity_layouts.insert(id, name);
            proof {
                lemma_str_map_insert(m, id, self.entity_layouts@[id]);
            }
        }
        let ghost before = entities_view(self.entities@);
        let ghost ev = entity_view(entity);
        self.entities.push(entity);
        self.modified = true;
        assert(entities_view(self.entities@) =~= before.push(ev));
    }

    /// Adds an entity in the active layout.
    pub fn add_entity(&mut self, entity: Entity)
        ensures
            doc_state(*final(self)) == entity_added(doc_state(*old(self)), entity_view(entity), None),
            final(self).modified,
    {
        self.add_entity_on_layout(entity, None);
    }

    /// Makes a layout active, creating it when missing.
    pub fn set_active_layout(&mut self, name: &str)
        ensures
            doc_state(*final(self)) == (DocState {
                active_layout: layout_name(name@),
                ..with_layout(doc_state(*old(self)), name@)
            }),
            final(self).modified == old(self).modified,
    {
        let n = normalized_layout_name(name);
        proof {
            crate::document::law_layout_name_idempotent(name@);
        }
        self.ensure_layout(n.as_str());
        self.active_layout = n;
    }

    /// The kind of the active layout (`Model` when it does not exist).
    pub fn active_layout_kind(&self) -> (r: LayoutKind)
        ensures
            r == match find_layout(layouts_view(self.layouts@), self.active_layout@) {
                Some(i) => layouts_view(self.layouts@)[i].kind,
                None => LayoutKind::Model,
            },
    {
        proof {
            lemma_find_layout(layouts_view(self.layouts@), self.active_layout@);
        }
        match self.find_layout_index(self.active_layout.as_str()) {
            Some(i) => self.layouts[i].kind,
            None => LayoutKind::Model,
        }
    }

    /// The active layout, if it exists.
    pub fn active_layout_ref(&self) -> (r: Option<&Layout>)
        ensures
            match r {
                Some(l) => match find_layout(layouts_view(self.layouts@), self.active_layout@) {
                    Some(i) => layout_state(*l) == layouts_view(self.layouts@)[i],
                    None => false,
                },
                None => find_layout(layouts_view(self.layouts@), self.active_layout@).is_none(),
            },
    {
        proof {
            lemma_find_layout(layouts_view(self.layouts@), self.active_layout@);
        }
        match self.find_layout_index(self.active_layout.as_str()) {
            Some(i) => Some(&self.layouts[i]),
            None => None,
        }
    }

    fn find_layout_index(&self, name: &str) -> (r: Option<usize>)
        ensures
            match r {
                Some(i) => find_layout(layouts_view(self.layouts@), name@) == Some(i as int),
                None => find_layout(layouts_view(self.layouts@), name@).is_none(),
            },
    {
        let ghost lv = layouts_view(self.layouts@);
        let mut i: usize = 0;
        while i < self.layouts.len()
            invariant
                i <= self.layouts.len(),
                lv == layouts_view(self.layouts@),
                forall|j: int| 0 <= j < i ==> #[trigger] lv[j].name != name@,
            decreases self.layouts.len() - i,
        {
            if str_eq(self.layouts[i].name.as_str(), name) {
                proof {
                    lemma_find_layout(lv, name@);
                    match find_layout(lv, name@) {
                        Some(k) => {
                            if k > i {
                                assert(lv[i as int].name == name@);
                            }
                            if k < i {
                                assert(lv[k].name != name@);
                            }
                        },
                        None => {
                            assert(lv[i as int].name == name@);
                        },
                    }
                }
                return Some(i);
            }
            i += 1;
        }
        proof {
            lemma_find_layout(lv, name@);
            if let Some(k) = find_layout(lv, name@) {
                assert(lv[k].name != name@);
            }
        }
        None
    }

    /// The layout an entity is on (see `layout_of`).
    pub fn entity_layout(&self, id: u64) -> (r: &str)
        ensures
            r@ == layout_of(doc_state(*self), id),
    {
        match self.entity_layouts.get(&id) {
            Some(l) => l.as_str(),
            None => "Model",
        }
    }

    /// Whether an entity is in model space.
    pub fn is_model_entity(&self, id: u64) -> (r: bool)
        ensures
            r == (layout_of(doc_state(*self), id) == "Model"@),
    {
        str_eq(self.entity_layout(id), "Model")
    }

    /// Whether an entity shows in the active layout: it is on that layout and
    /// its layer shows.
    pub fn entity_visible_in_active_layout(&self, id: u64) -> (r: bool)
        ensures
            r == (layout_name(layout_of(doc_state(*self), id)) == layout_name(self.active_layout@)
                && match find_entity(entities_view(self.entities@), id) {
                Some(i) => shows(layers_view(self.layers@), entities_view(self.entities@)[i].1),
                None => true,
            }),
    {
        let a = normalized_layout_name(self.entity_layout(id));
        let b = normalized_layout_name(self.active_layout.as_str());
        str_eq(a.as_str(), b.as_str()) && self.entity_layer_visible(id)
    }

    /// Adds a viewport, creating its layout when missing.
    pub fn add_layout_viewport(&mut self, viewport: LayoutViewport)
        ensures
            doc_state(*final(self)) == (DocState {
                viewports: doc_state(*old(self)).viewports.push(
                    (viewport.id, viewport.layout@, viewport.locked),
                ),
                ..with_layout(doc_state(*old(self)), viewport.layout@)
            }),
            final(self).modified,
    {
        self.ensure_layout(viewport.layout.as_str());
        let ghost before = viewports_view(self.layout_viewports@);
        let ghost v = (viewport.id, viewport.layout@, viewport.locked);
        self.layout_viewports.push(viewport);
        self.modified = true;
        assert(viewports_view(self.layout_viewports@) =~= before.push(v));
    }

    /// Locks or unlocks the last viewport of the active layout, giving its new
    /// state; `None` when the layout has none.
    pub fn toggle_active_layout_viewport_lock(&mut self) -> (r: Option<bool>)
        ensures
            match last_viewport_on(viewports_view(old(self).layout_viewports@), old(self).active_layout@) {
                Some(i) => {
                    let v = viewports_view(old(self).layout_viewports@)[i];
                    &&& r == Some(!v.2)
                    &&& final(self).modified
                    &&& doc_state(*final(self)) == (DocState {
                        viewports: viewports_view(old(self).layout_viewports@).update(
                            i,
                            (v.0, v.1, !v.2),
                        ),
                        ..doc_state(*old(self))
                    })
                },
                None => r.is_none() && *final(self) == *old(self),
            },
    {
        let ghost vv = viewports_view(self.layout_viewports@);
        let mut i: usize = self.layout_viewports.len();
        assert(vv.take(i as int) == vv);
        while i > 0
            invariant
                i <= self.layout_viewports.len(),
                *self == *old(self),
                vv == viewports_view(self.layout_viewports@),
                last_viewport_on(vv, self.active_layout@) == last_viewport_on(vv.take(i as int), self.active_layout@),
            decreases i,
        {
            let k = i - 1;
            proof {
                assert(vv.take(i as int).drop_last() == vv.take(k as int));
                assert(vv.take(i as int).last() == vv[k as int]);
            }
            if str_eq(self.layout_viewports[k].layout.as_str(), self.active_layout.as_str()) {
                let v = &self.layout_viewports[k];
                let flipped = LayoutViewport { id: v.id, layout: v.layout.clone(), locked: !v.locked };
                let now = flipped.locked;
                self.layout_viewports.set(k, flipped);
                self.modified = true;
                assert(viewports_view(self.layout_viewports@) =~= vv.update(
                    k as int,
                    (vv[k as int].0, vv[k as int].1, !vv[k as int].2),
                ));
                return Some(now);
            }
            i = k;
        }
        None
    }
}

/// Placing a viewport on the active layout: refused unless that layout is a
/// paper layout that exists; the viewport takes the id that the next entity
/// would get, and starts unlocked.
pub open spec fn viewport_created(t: DocState) -> Option<(u64, DocState)> {
    match find_layout(t.layouts, t.active_layout) {
        Some(i) => if t.layouts[i].kind == LayoutKind::Paper {
            let id = next_id_of(t.entities);
            Some((id, DocState { viewports: t.viewports.push((id, t.active_layout, false)), ..t }))
        } else {
            None
        },
        None => None,
    }
}

impl Document {
    /// Places a viewport on the active paper layout (see
    /// `viewport_created`), giving its id.
    pub fn create_viewport_for_active_layout(&mut self) -> (r: Option<u64>)
        ensures
            match viewport_created(doc_state(*old(self))) {
                Some((id, s)) => r == Some(id) && doc_state(*final(self)) == s
                    && final(self).modified,
                None => r.is_none() && *final(self) == *old(self),
            },
    {
        proof {
            lemma_find_layout(layouts_view(self.layouts@), self.active_layout@);
        }
        match self.active_layout_kind() {
            LayoutKind::Paper => {},
            LayoutKind::Model => {
                return None;
            },
        }
        let id = self.next_id();
        let ghost before = viewports_view(self.layout_viewports@);
        let viewport = LayoutViewport { id, layout: self.active_layout.clone(), locked: false };
        self.layout_viewports.push(viewport);
        self.modified = true;
        assert(viewports_view(self.layout_viewports@) =~= before.push(
            (id, self.active_layout@, false),
        ));
        Some(id)
    }
}

/// The index of the last viewport on this layout.
pub open spec fn last_viewport_on(vs: Seq<(u64, Seq<char>, bool)>, layout: Seq<char>) -> Option<int>
    decreases vs.len(),
{
    if vs.len() == 0 {
        None
    } else if vs.last().1 == layout {
        Some(vs.len() - 1)
    } else {
        last_viewport_on(vs.drop_last(), layout)
    }
}

// ---------------------------------------------------------------------------
// New layout names
// ---------------------------------------------------------------------------

/// Whether a layout of this name exists.
pub open spec fn layout_used(ls: Seq<LayoutState>, name: Seq<char>) -> bool {
    find_layout(ls, name).is_some()
}

/// `prefix` followed by the number `i`.
pub open spec fn numbered(prefix: Seq<char>, i: nat) -> Seq<char> {
    prefix + decimal(i)
}

/// `i` is the first number from `start` on whose name is free.
pub open spec fn first_free_number(ls: Seq<LayoutState>, prefix: Seq<char>, start: nat, i: nat) -> bool {
    &&& i >= start
    &&& !layout_used(ls, numbered(prefix, i))
    &&& forall|j: nat| start <= j < i ==> layout_used(ls, #[trigger] numbered(prefix, j))
}

/// The first free name of the form `prefix` + number, numbers counted from
/// `start`.
pub open spec fn first_free_name(ls: Seq<LayoutState>, prefix: Seq<char>, start: nat) -> Seq<char> {
    numbered(prefix, choose|i: nat| first_free_number(ls, prefix, start, i))
}

pub proof fn lemma_numbered_injective(prefix: Seq<char>, a: nat, b: nat)
    requires
        numbered(prefix, a) == numbered(prefix, b),
    ensures
        a == b,
{
    assert(numbered(prefix, a).skip(prefix.len() as int) == decimal(a));
    assert(numbered(prefix, b).skip(prefix.len() as int) == decimal(b));
    lemma_decimal_injective(a, b);
}

/// Names that are all used and pairwise different are at most as many as
/// the layouts.
pub proof fn lemma_used_names_bound(ls: Seq<LayoutState>, names: Seq<Seq<char>>)
    requires
        names.no_duplicates(),
        forall|k: int| 0 <= k < names.len() ==> layout_used(ls, #[trigger] names[k]),
    ensures
        names.len() <= ls.len(),
{
    let idx = Seq::new(names.len(), |k: int| find_layout(ls, names[k]).unwrap());
    assert forall|k: int| 0 <= k < names.len() implies 0 <= #[trigger] idx[k] < ls.len()
        && ls[idx[k]].name == names[k] by {
        lemma_find_layout(ls, names[k]);
    }
    assert(idx.no_duplicates()) by {
        assert forall|a: int, b: int| 0 <= a < idx.len() && 0 <= b < idx.len() && a != b implies idx[a]
            != idx[b] by {
            if idx[a] == idx[b] {
                assert(names[a] == ls[idx[a]].name);
                assert(names[b] == ls[idx[b]].name);
            }
        }
    }
    idx.unique_seq_to_set();
    vstd::set_lib::lemma_int_range(0, ls.len() as int);
    assert(idx.to_set().subset_of(vstd::set_lib::set_int_range(0, ls.len() as int)));
    vstd::set_lib::lemma_len_subset(idx.to_set(), vstd::set_lib::set_int_range(0, ls.len() as int));
}

/// While every number from `start` up to `i` names a used layout, there are
/// at most as many such numbers as layouts.
pub proof fn lemma_used_numbers_bound(ls: Seq<LayoutState>, prefix: Seq<char>, start: nat, i: nat)
    requires
        start <= i,
        forall|j: nat| start <= j < i ==> layout_used(ls, #[trigger] numbered(prefix, j)),
    ensures
        i - start <= ls.len(),
{
    let names = Seq::new((i - start) as nat, |k: int| numbered(prefix, (start + k) as nat));
    assert forall|k: int| 0 <= k < names.len() implies layout_used(ls, #[trigger] names[k]) by {
        assert(names[k] == numbered(prefix, (start + k) as nat));
    }
    assert(names.no_duplicates()) by {
        assert forall|a: int, b: int| 0 <= a < names.len() && 0 <= b < names.len() && a != b implies names[a]
            != names[b] by {
            if names[a] == names[b] {
                lemma_numbered_injective(prefix, (start + a) as nat, (start + b) as nat);
            }
        }
    }
    lemma_used_names_bound(ls, names);
}

impl Document {
    /// The first free layout name `prefix` + number, counting from `start`.
    fn first_free_layout_name(&self, prefix: &str, start: u64) -> (r: String)
        ensures
            r@ == first_free_name(layouts_view(self.layouts@), prefix@, start as nat),
            !layout_used(layouts_view(self.layouts@), r@),
    {
        let ghost ls = layouts_view(self.layouts@);
        let mut i: u128 = start as u128;
        loop
            invariant
                ls == layouts_view(self.layouts@),
                ls.len() == self.layouts.len(),
                start <= i,
                forall|j: nat| start <= j < i ==> layout_used(ls, #[trigger] numbered(prefix@, j)),
            decreases ls.len() + start + 1 - i,
        {
            proof {
                lemma_used_numbers_bound(ls, prefix@, start as nat, i as nat);
            }
            let mut candidate = owned(prefix);
            let digits = decimal_string(i);
            push_str(&mut candidate, digits.as_str());
            assert(candidate@ == numbered(prefix@, i as nat));
            if self.find_layout_index(candidate.as_str()).is_none() {
                proof {
                    let w = i as nat;
                    assert(first_free_number(ls, prefix@, start as nat, w));
                    let c = choose|k: nat| first_free_number(ls, prefix@, start as nat, k);
                    assert(first_free_number(ls, prefix@, start as nat, c));
                    if c < w {
                        assert(layout_used(ls, numbered(prefix@, c)));
                    } else if c > w {
                        assert(layout_used(ls, numbered(prefix@, w)));
                    }
                }
                return candidate;
            }
            proof {
                assert forall|j: nat| start <= j < i + 1 implies layout_used(
                    ls,
                    #[trigger] numbered(prefix@, j),
                ) by {
                    if j == i {
                        assert(layout_used(ls, candidate@));
                    }
                }
                lemma_used_numbers_bound(ls, prefix@, start as nat, (i + 1) as nat);
                assert(self.layouts.len() <= usize::MAX);
            }
            i = i + 1;
        }
    }

    /// Adds a paper layout named `Layout <n>` with the smallest free `n` from
    /// 1 on, makes it active, and gives its name.
    pub fn create_paper_layout(&mut self) -> (r: String)
        ensures
            r@ == first_free_name(layouts_view(old(self).layouts@), "Layout "@, 1),
            !layout_used(layouts_view(old(self).layouts@), r@),
            doc_state(*final(self)) == (DocState {
                layouts: doc_state(*old(self)).layouts.push(
                    LayoutState { name: r@, kind: LayoutKind::Paper, paper_background: true },
                ),
                active_layout: r@,
                ..doc_state(*old(self))
            }),
            final(self).modified,
    {
        let name = self.first_free_layout_name("Layout ", 1);
        let ghost before = layouts_view(self.layouts@);
        self.layouts.push(Layout { name: name.clone(), kind: LayoutKind::Paper, paper_background: true });
        assert(layouts_view(self.layouts@) =~= before.push(
            LayoutState { name: name@, kind: LayoutKind::Paper, paper_background: true },
        ));
        self.active_layout = name.clone();
        self.modified = true;
        name
    }
}

// ---------------------------------------------------------------------------
// Deleting a layout
// ---------------------------------------------------------------------------

/// The layout of an entity id in a layout map.
pub open spec fn mapped_layout(m: Map<u64, Seq<char>>, id: u64) -> Seq<char> {
    if m.contains_key(id) {
        m[id]
    } else {
        "Model"@
    }
}

/// The ids of the entities on a layout, in entity order.
pub open spec fn ids_on(es: Seq<EntityView>, m: Map<u64, Seq<char>>, n: Seq<char>) -> Seq<u64>
    decreases es.len(),
{
    if es.len() == 0 {
        seq![]
    } else {
        let prev = ids_on(es.drop_last(), m, n);
        if mapped_layout(m, es.last().0) == n {
            prev.push(es.last().0)
        } else {
            prev
        }
    }
}

/// The document after each of the ids is removed in turn.
pub open spec fn all_removed(t: DocState, ids: Seq<u64>) -> DocState
    decreases ids.len(),
{
    if ids.len() == 0 {
        t
    } else {
        entity_removed(all_removed(t, ids.drop_last()), ids.last()).1
    }
}

/// The layouts without those of this name.
pub open spec fn without_layout(ls: Seq<LayoutState>, n: Seq<char>) -> Seq<LayoutState>
    decreases ls.len(),
{
    if ls.len() == 0 {
        seq![]
    } else if ls.last().name == n {
        without_layout(ls.drop_last(), n)
    } else {
        without_layout(ls.drop_last(), n).push(ls.last())
    }
}

/// The viewports that are not on this layout.
pub open spec fn viewports_off(vs: Seq<(u64, Seq<char>, bool)>, n: Seq<char>) -> Seq<
    (u64, Seq<char>, bool),
>
    decreases vs.len(),
{
    if vs.len() == 0 {
        seq![]
    } else if vs.last().1 == n {
        viewports_off(vs.drop_last(), n)
    } else {
        viewports_off(vs.drop_last(), n).push(vs.last())
    }
}

/// Deleting a paper layout: refused for the model space or a layout that
/// does not exist; otherwise the layout goes, with the entities on it
/// (those on a locked layer stay) and its viewports, and the model space
/// becomes active if it was the active layout.
pub open spec fn layout_deleted(t: DocState, name: Seq<char>) -> Option<DocState> {
    let n = layout_name(name);
    if n == "Model"@ || find_layout(t.layouts, n).is_none() {
        None
    } else {
        let r = all_removed(
            DocState { layouts: without_layout(t.layouts, n), ..t },
            ids_on(t.entities, t.entity_layouts, n),
        );
        Some(
            DocState {
                viewports: viewports_off(r.viewports, n),
                active_layout: if t.active_layout == n {
                    "Model"@
                } else {
                    t.active_layout
                },
                ..r
            },
        )
    }
}

impl Document {
    /// The ids of the entities on a layout, in entity order.
    fn ids_on_layout(&self, n: &str) -> (r: Vec<u64>)
        ensures
            r@ == ids_on(entities_view(self.entities@), str_map_view(self.entity_layouts@), n@),
    {
        let ghost ev = entities_view(self.entities@);
        let ghost m = str_map_view(self.entity_layouts@);
        let mut r: Vec<u64> = Vec::new();
        let mut i: usize = 0;
        while i < self.entities.len()
            invariant
                i <= self.entities.len(),
                ev == entities_view(self.entities@),
                m == str_map_view(self.entity_layouts@),
                r@ == ids_on(ev.take(i as int), m, n@),
            decreases self.entities.len() - i,
        {
            proof {
                assert(ev.take(i + 1).drop_last() == ev.take(i as int));
                assert(ev.take(i + 1).last() == ev[i as int]);
            }
            let id = self.entities[i].id;
            if str_eq(self.entity_layout(id), n) {
                r.push(id);
            }
            i += 1;
        }
        assert(ev.take(self.entities.len() as int) == ev);
        r
    }

    /// Deletes a paper layout (see `layout_deleted`).
    pub fn delete_layout(&mut self, name: &str) -> (r: bool)
        ensures
            match layout_deleted(doc_state(*old(self)), name@) {
                Some(s) => r && doc_state(*final(self)) == s && final(self).modified,
                None => !r && *final(self) == *old(self),
            },
    {
        let n = normalized_layout_name(name);
        if str_eq(n.as_str(), "Model") || self.find_layout_index(n.as_str()).is_none() {
            return false;
        }
        let ghost t = doc_state(*self);
        let ids = self.ids_on_layout(n.as_str());
        let ghost lv = layouts_view(self.layouts@);
        let mut kept: Vec<Layout> = Vec::new();
        let mut i: usize = 0;
        while i < self.layouts.len()
            invariant
                i <= self.layouts.len(),
                lv == layouts_view(self.layouts@),
                layouts_view(kept@) == without_layout(lv.take(i as int), n@),
            decreases self.layouts.len() - i,
        {
            proof {
                assert(lv.take(i + 1).drop_last() == lv.take(i as int));
                assert(lv.take(i + 1).last() == lv[i as int]);
            }
            if !str_eq(self.layouts[i].name.as_str(), n.as_str()) {
                let l = &self.layouts[i];
                let copy = Layout { name: l.name.clone(), kind: l.kind, paper_background: l.paper_background };
                let ghost before = layouts_view(kept@);
                kept.push(copy);
                assert(layouts_view(kept@) =~= before.push(lv[i as int]));
            }
            i += 1;
        }
        assert(lv.take(self.layouts.len() as int) == lv);
        self.layouts = kept;
        let ghost start = doc_state(*self);
        assert(start == (DocState { layouts: without_layout(t.layouts, n@), ..t }));
        let mut k: usize = 0;
        assert(ids@.take(0) =~= Seq::<u64>::empty());
        while k < ids.len()
            invariant
                k <= ids.len(),
                doc_state(*self) == all_removed(start, ids@.take(k as int)),
                start.viewports == t.viewports,
                start.active_layout == t.active_layout,
            decreases ids.len() - k,
        {
            proof {
                assert(ids@.take(k + 1).drop_last() == ids@.take(k as int));
                assert(ids@.take(k + 1).last() == ids@[k as int]);
            }
            self.remove_entity(ids[k]);
            k += 1;
        }
        assert(ids@.take(ids.len() as int) == ids@);
        let ghost r = doc_state(*self);
        proof {
            lemma_all_removed_keeps(start, ids@);
        }
        let ghost vv = viewports_view(self.layout_viewports@);
        let mut viewports: Vec<LayoutViewport> = Vec::new();
        let mut j: usize = 0;
        while j < self.layout_viewports.len()
            invariant
                j <= self.layout_viewports.len(),
                vv == viewports_view(self.layout_viewports@),
                viewports_view(viewports@) == viewports_off(vv.take(j as int), n@),
            decreases self.layout_viewports.len() - j,
        {
            proof {
                assert(vv.take(j + 1).drop_last() == vv.take(j as int));
                assert(vv.take(j + 1).last() == vv[j as int]);
            }
            if !str_eq(self.layout_viewports[j].layout.as_str(), n.as_str()) {
                let v = &self.layout_viewports[j];
                let copy = LayoutViewport { id: v.id, layout: v.layout.clone(), locked: v.locked };
                let ghost before = viewports_view(viewports@);
                viewports.push(copy);
                assert(viewports_view(viewports@) =~= before.push(vv[j as int]));
            }
            j += 1;
        }
        assert(vv.take(self.layout_viewports.len() as int) == vv);
        self.layout_viewports = viewports;
        if str_eq(self.active_layout.as_str(), n.as_str()) {
            self.active_layout = owned("Model");
        }
        self.modified = true;
        true
    }
}

/// Removing entities leaves the layouts, viewports and active layout alone.
pub proof fn lemma_all_removed_keeps(t: DocState, ids: Seq<u64>)
    ensures
        all_removed(t, ids).layouts == t.layouts,
        all_removed(t, ids).viewports == t.viewports,
        all_removed(t, ids).active_layout == t.active_layout,
    decreases ids.len(),
{
    if ids.len() > 0 {
        lemma_all_removed_keeps(t, ids.drop_last());
    }
}

// ---------------------------------------------------------------------------
// Duplicating a layout
// ---------------------------------------------------------------------------

/// The entities on a layout, in order.
pub open spec fn entities_on(es: Seq<EntityView>, m: Map<u64, Seq<char>>, n: Seq<char>) -> Seq<
    EntityView,
>
    decreases es.len(),
{
    if es.len() == 0 {
        seq![]
    } else {
        let prev = entities_on(es.drop_last(), m, n);
        if mapped_layout(m, es.last().0) == n {
            prev.push(es.last())
        } else {
            prev
        }
    }
}

/// The document after a copy of each source entity is added on layout
/// `layout`, in turn: the copy takes the next free id and the source's layer,
/// kind and text, and the source's own color and line type, if it has them.
pub open spec fn copies_added(t: DocState, src: Seq<EntityView>, layout: Seq<char>) -> DocState
    decreases src.len(),
{
    if src.len() == 0 {
        t
    } else {
        let p = copies_added(t, src.drop_last(), layout);
        let e = src.last();
        let nid = next_id_of(p.entities);
        DocState {
            entities: p.entities.push((nid, e.1, e.2, e.3)),
            entity_layouts: p.entity_layouts.insert(nid, layout),
            colors: if p.colors.contains_key(e.0) {
                p.colors.insert(nid, p.colors[e.0])
            } else {
                p.colors
            },
            line_types: if p.line_types.contains_key(e.0) {
                p.line_types.insert(nid, p.line_types[e.0])
            } else {
                p.line_types
            },
            ..p
        }
    }
}

/// Copies of the viewports on layout `n`, on layout `layout` and all with
/// id `id`.
pub open spec fn copied_viewports(
    vs: Seq<(u64, Seq<char>, bool)>,
    n: Seq<char>,
    id: u64,
    layout: Seq<char>,
) -> Seq<(u64, Seq<char>, bool)>
    decreases vs.len(),
{
    if vs.len() == 0 {
        seq![]
    } else {
        let prev = copied_viewports(vs.drop_last(), n, id, layout);
        if vs.last().1 == n {
            prev.push((id, layout, vs.last().2))
        } else {
            prev
        }
    }
}

/// Duplicating a paper layout: refused for the model space or a layout that
/// does not exist; otherwise a paper layout named `<name> copy <k>`, with the
/// smallest free `k` from 2 on, is added and made active, with a copy of each
/// entity on the layout and of each of its viewports (the viewport copies all
/// take the id that the next entity would get).
pub open spec fn layout_duplicated(t: DocState, name: Seq<char>) -> Option<(Seq<char>, DocState)> {
    let n = layout_name(name);
    if n == "Model"@ || find_layout(t.layouts, n).is_none() {
        None
    } else {
        let new_name = first_free_name(t.layouts, n + " copy "@, 2);
        let t1 = DocState {
            layouts: t.layouts.push(
                LayoutState { name: new_name, kind: LayoutKind::Paper, paper_background: true },
            ),
            ..t
        };
        let t2 = copies_added(t1, entities_on(t.entities, t.entity_layouts, n), new_name);
        let vid = next_id_of(t2.entities);
        Some(
            (
                new_name,
                DocState {
                    viewports: t2.viewports + copied_viewports(t.viewports, n, vid, new_name),
                    active_layout: new_name,
                    ..t2
                },
            ),
        )
    }
}

impl Document {
    /// The entities on a layout, in order.
    fn entities_on_layout(&self, n: &str) -> (r: Vec<Entity>)
        ensures
            entities_view(r@) == entities_on(
                entities_view(self.entities@),
                str_map_view(self.entity_layouts@),
                n@,
            ),
    {
        let ghost ev = entities_view(self.entities@);
        let ghost m = str_map_view(self.entity_layouts@);
        let mut r: Vec<Entity> = Vec::new();
        let mut i: usize = 0;
        while i < self.entities.len()
            invariant
                i <= self.entities.len(),
                ev == entities_view(self.entities@),
                m == str_map_view(self.entity_layouts@),
                entities_view(r@) == entities_on(ev.take(i as int), m, n@),
            decreases self.entities.len() - i,
        {
            proof {
                assert(ev.take(i + 1).drop_last() == ev.take(i as int));
                assert(ev.take(i + 1).last() == ev[i as int]);
            }
            let id = self.entities[i].id;
            if str_eq(self.entity_layout(id), n) {
                let ghost before = entities_view(r@);
                r.push(self.entities[i].copy());
                assert(entities_view(r@) =~= before.push(ev[i as int]));
            }
            i += 1;
        }
        assert(ev.take(self.entities.len() as int) == ev);
        r
    }

    /// Duplicates a paper layout (see `layout_duplicated`), giving the new
    /// layout's name.
    pub fn duplicate_layout(&mut self, name: &str) -> (r: Option<String>)
        ensures
            match layout_duplicated(doc_state(*old(self)), name@) {
                Some((new_name, s)) => r.is_some() && r.unwrap()@ == new_name && doc_state(
                    *final(self),
                ) == s && final(self).modified,
                None => r.is_none() && *final(self) == *old(self),
            },
    {
        let n = normalized_layout_name(name);
        if str_eq(n.as_str(), "Model") || self.find_layout_index(n.as_str()).is_none() {
            return None;
        }
        let ghost t = doc_state(*self);
        let mut prefix = n.clone();
        push_str(&mut prefix, " copy ");
        let new_name = self.first_free_layout_name(prefix.as_str(), 2);
        let sources = self.entities_on_layout(n.as_str());
        let ghost sv = entities_view(sources@);
        let ghost before = layouts_view(self.layouts@);
        self.layouts.push(
            Layout { name: new_name.clone(), kind: LayoutKind::Paper, paper_background: true },
        );
        assert(layouts_view(self.layouts@) =~= before.push(
            LayoutState { name: new_name@, kind: LayoutKind::Paper, paper_background: true },
        ));
        let ghost t1 = doc_state(*self);
        let mut k: usize = 0;
        assert(sv.take(0) =~= Seq::<EntityView>::empty());
        while k < sources.len()
            invariant
                k <= sources.len(),
                sv == entities_view(sources@),
                doc_state(*self) == copies_added(t1, sv.take(k as int), new_name@),
            decreases sources.len() - k,
        {
            proof {
                assert(sv.take(k + 1).drop_last() == sv.take(k as int));
                assert(sv.take(k + 1).last() == sv[k as int]);
            }
            let ghost p = doc_state(*self);
            let source_id = sources[k].id;
            let nid = self.next_id();
            let ghost es = entities_view(self.entities@);
            let mut copy = sources[k].copy();
            copy.id = nid;
            self.entities.push(copy);
            assert(entities_view(self.entities@) =~= es.push(
                (nid, sv[k as int].1, sv[k as int].2, sv[k as int].3),
            ));
            let ghost lm = self.entity_layouts@;
            self.entity_layouts.insert(nid, new_name.clone());
            proof {
                lemma_str_map_insert(lm, nid, self.entity_layouts@[nid]);
            }
            let ghost cm = self.entity_colors@;
            match self.entity_colors.get(&source_id) {
                Some(c) => {
                    let c = c.clone();
                    self.entity_colors.insert(nid, c);
                    proof {
                        lemma_str_map_insert(cm, nid, self.entity_colors@[nid]);
                    }
                },
                None => {},
            }
            let ghost tm = self.entity_line_types@;
            match self.entity_line_types.get(&source_id) {
                Some(c) => {
                    let c = c.clone();
                    self.entity_line_types.insert(nid, c);
                    proof {
                        lemma_str_map_insert(tm, nid, self.entity_line_types@[nid]);
                    }
                },
                None => {},
            }
            k += 1;
        }
        assert(sv.take(sources.len() as int) == sv);
        let vid = self.next_id();
        let ghost t2 = doc_state(*self);
        proof {
            lemma_copies_added_keeps(t1, sv, new_name@);
        }
        let ghost vv = viewports_view(self.layout_viewports@);
        assert(vv == t.viewports);
        let mut added: Vec<LayoutViewport> = Vec::new();
        let mut j: usize = 0;
        while j < self.layout_viewports.len()
            invariant
                j <= self.layout_viewports.len(),
                vv == viewports_view(self.layout_viewports@),
                viewports_view(added@) == copied_viewports(vv.take(j as int), n@, vid, new_name@),
            decreases self.layout_viewports.len() - j,
        {
            proof {
                assert(vv.take(j + 1).drop_last() == vv.take(j as int));
                assert(vv.take(j + 1).last() == vv[j as int]);
            }
            if str_eq(self.layout_viewports[j].layout.as_str(), n.as_str()) {
                let copy = LayoutViewport {
                    id: vid,
                    layout: new_name.clone(),
                    locked: self.layout_viewports[j].locked,
                };
                let ghost before = viewports_view(added@);
                added.push(copy);
                assert(viewports_view(added@) =~= before.push((vid, new_name@, vv[j as int].2)));
            }
            j += 1;
        }
        assert(vv.take(self.layout_viewports.len() as int) == vv);
        let ghost av = viewports_view(added@);
        let mut m: usize = 0;
        while m < added.len()
            invariant
                m <= added.len(),
                av == viewports_view(added@),
                doc_state(*self) == (DocState { viewports: t2.viewports + av.take(m as int), ..t2 }),
            decreases added.len() - m,
        {
            let v = LayoutViewport { id: added[m].id, layout: added[m].layout.clone(), locked: added[m].locked };
            let ghost cur = viewports_view(self.layout_viewports@);
            self.layout_viewports.push(v);
            proof {
                assert(viewports_view(self.layout_viewports@) =~= cur.push(av[m as int]));
                assert(av.take(m + 1) == av.take(m as int).push(av[m as int]));
                assert(t2.viewports + av.take(m + 1) =~= (t2.viewports + av.take(m as int)).push(
                    av[m as int],
                ));
            }
            m += 1;
        }
        assert(av.take(added.len() as int) == av);
        self.active_layout = new_name.clone();
        self.modified = true;
        Some(new_name)
    }
}

/// Adding copies of entities leaves the layouts, viewports and active
/// layout alone.
pub proof fn lemma_copies_added_keeps(t: DocState, src: Seq<EntityView>, layout: Seq<char>)
    ensures
        copies_added(t, src, layout).layouts == t.layouts,
        copies_added(t, src, layout).viewports == t.viewports,
        copies_added(t, src, layout).active_layout == t.active_layout,
    decreases src.len(),
{
    if src.len() > 0 {
        lemma_copies_added_keeps(t, src.drop_last(), layout);
    }
}

// ---------------------------------------------------------------------------
// Laws
// ---------------------------------------------------------------------------

/// From `i` on, some number gives a free name, and the first one found is
/// the first free number from `start`.
proof fn lemma_first_free_from(ls: Seq<LayoutState>, prefix: Seq<char>, start: nat, i: nat)
    requires
        start <= i,
        forall|j: nat| start <= j < i ==> layout_used(ls, #[trigger] numbered(prefix, j)),
    ensures
        exists|k: nat| first_free_number(ls, prefix, start, k),
    decreases ls.len() + start + 1 - i,
{
    lemma_used_numbers_bound(ls, prefix, start, i);
    if !layout_used(ls, numbered(prefix, i)) {
        assert(first_free_number(ls, prefix, start, i));
    } else {
        assert forall|j: nat| start <= j < i + 1 implies layout_used(ls, #[trigger] numbered(prefix, j)) by {}
        lemma_used_numbers_bound(ls, prefix, start, i + 1);
        lemma_first_free_from(ls, prefix, start, i + 1);
    }
}

/// The first free name is free.
pub proof fn lemma_first_free_name(ls: Seq<LayoutState>, prefix: Seq<char>, start: nat)
    ensures
        !layout_used(ls, first_free_name(ls, prefix, start)),
{
    lemma_first_free_from(ls, prefix, start, start);
    let k = choose|k: nat| first_free_number(ls, prefix, start, k);
    assert(first_free_number(ls, prefix, start, k));
}

/// A duplicated layout gets a name that no layout had, and becomes the
/// active layout.
pub proof fn law_duplicate_name_is_fresh(t: DocState, name: Seq<char>)
    requires
        layout_duplicated(t, name).is_some(),
    ensures
        !layout_used(t.layouts, layout_duplicated(t, name).unwrap().0),
        layout_duplicated(t, name).unwrap().1.active_layout == layout_duplicated(t, name).unwrap().0,
        layout_used(layout_duplicated(t, name).unwrap().1.layouts, layout_duplicated(t, name).unwrap().0),
{
    let n = layout_name(name);
    let nn = first_free_name(t.layouts, n + " copy "@, 2);
    lemma_first_free_name(t.layouts, n + " copy "@, 2);
    let t1 = DocState {
        layouts: t.layouts.push(LayoutState { name: nn, kind: LayoutKind::Paper, paper_background: true }),
        ..t
    };
    lemma_copies_added_keeps(t1, entities_on(t.entities, t.entity_layouts, n), nn);
    lemma_find_layout(t1.layouts, nn);
    if find_layout(t1.layouts, nn).is_none() {
        assert(t1.layouts[t1.layouts.len() - 1].name == nn);
    }
}

/// A new paper layout gets a name that no layout had.
pub proof fn law_new_paper_layout_name_is_fresh(t: DocState)
    ensures
        !layout_used(t.layouts, first_free_name(t.layouts, "Layout "@, 1)),
{
    lemma_first_free_name(t.layouts, "Layout "@, 1);
}

pub proof fn lemma_without_layout(ls: Seq<LayoutState>, n: Seq<char>)
    ensures
        forall|j: int| 0 <= j < without_layout(ls, n).len() ==> #[trigger] without_layout(ls, n)[j].name != n,
    decreases ls.len(),
{
    if ls.len() > 0 {
        lemma_without_layout(ls.drop_last(), n);
    }
}

/// A deleted layout is gone, and the active layout is not it.
pub proof fn law_deleted_layout_is_gone(t: DocState, name: Seq<char>)
    requires
        layout_deleted(t, name).is_some(),
    ensures
        !layout_used(layout_deleted(t, name).unwrap().layouts, layout_name(name)),
        layout_deleted(t, name).unwrap().active_layout != layout_name(name),
{
    let n = layout_name(name);
    let t0 = DocState { layouts: without_layout(t.layouts, n), ..t };
    lemma_all_removed_keeps(t0, ids_on(t.entities, t.entity_layouts, n));
    lemma_without_layout(t.layouts, n);
    lemma_find_layout(without_layout(t.layouts, n), n);
}

} // verus!
