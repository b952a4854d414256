//! How an entity read from a DXF file enters a document: its layer is
//! created when missing, it is placed on the layout that its pairs name, and
//! the ACI color of its group 62, if any, is set on it.
use vstd::prelude::*;

use crate::document::{
    color_value, doc_state, entity_view, layers_view, DocState, Document, Entity, EntityKind,
    EntityView, Layer,
};
use crate::dxf::{
    aci_color, dxf_color_value, dxf_text, entity_layout, entity_layout_name, joined_text,
    joined_text_value, lookup, lookup_int, normalize_dxf_text, pairs_view, text_value,
};
use crate::layers::{editable, find_layer, lemma_find_layer, new_layer_state};
use crate::layouts::entity_added;
use crate::strmap::StrMap;
use crate::text::{owned, str_eq};

verus! {

/// The document with a layer of this name added, unless one exists.
pub open spec fn layer_ensured(t: DocState, name: Seq<char>) -> DocState {
    if find_layer(t.layers, name).is_some() {
        t
    } else {
        DocState { layers: t.layers.push(new_layer_state(name)), ..t }
    }
}

/// Adds a layer of this name unless the document has one.
pub fn ensure_layer(document: &mut Document, layer: &str)
    ensures
        doc_state(*final(document)) == layer_ensured(doc_state(*old(document)), layer@),
        final(document).modified == old(document).modified,
{
    let ghost lv = layers_view(document.layers@);
    let mut i: usize = 0;
    while i < document.layers.len()
        invariant
            i <= document.layers@.len(),
            lv == layers_view(document.layers@),
            forall|j: int| 0 <= j < i ==> #[trigger] lv[j].name != layer@,
        decreases document.layers@.len() - i,
    {
        if str_eq(document.layers[i].name.as_str(), layer) {
            proof {
                lemma_find_layer(lv, layer@);
                assert(lv[i as int].name == layer@);
            }
            return;
        }
        i += 1;
    }
    proof {
        lemma_find_layer(lv, layer@);
    }
    document.layers.push(Layer::new(layer));
    assert(layers_view(document.layers@) =~= lv.push(new_layer_state(layer@)));
}

/// The document after an entity `e` read from DXF pairs `p` is added (see
/// the module's description).
pub open spec fn entity_imported(
    t: DocState,
    e: EntityView,
    p: Seq<(Seq<char>, Seq<char>)>,
    owners: Map<Seq<char>, Seq<char>>,
    hint: Option<Seq<char>>,
) -> DocState {
    let id = e.0;
    let t2 = entity_added(layer_ensured(t, e.1), e, Some(entity_layout(p, owners, hint)));
    match lookup_int(p, "62"@) {
        Some(n) => match aci_color(n) {
            Some(c) => if editable(t2, id) {
                DocState {
                    colors: match color_value(c) {
                        Some(v) => t2.colors.insert(id, v),
                        None => t2.colors.remove(id),
                    },
                    ..t2
                }
            } else {
                t2
            },
            None => t2,
        },
        None => t2,
    }
}

/// Adds an entity read from DXF pairs to a document (see
/// `entity_imported`).
pub fn add_imported_entity(
    document: &mut Document,
    entity: Entity,
    pairs: &[(String, String)],
    layout_owners: &StrMap,
    paper_layout_hint: Option<&str>,
)
    ensures
        doc_state(*final(document)) == entity_imported(
            doc_state(*old(document)),
            entity_view(entity),
            pairs_view(pairs@),
            layout_owners@,
            match paper_layout_hint {
                Some(h) => Some(h@),
                None => None,
            },
        ),
        final(document).modified,
{
    let layout = entity_layout_name(pairs, layout_owners, paper_layout_hint);
    let id = entity.id;
    ensure_layer(document, entity.layer.as_str());
    document.add_entity_on_layout(entity, Some(layout.as_str()));
    match dxf_color_value(pairs) {
        Some(color) => {
            let _ = document.set_entity_color(id, color);
        },
        None => {},
    }
}

/// The kind of entity that a DXF entity type (in upper case) is read as:
/// lines; light-weight and 3D polylines, arcs and ellipses as polylines;
/// circles; splines; hatches; dimensions; texts, MTEXT and attributes as
/// text; block inserts as block references. Other types are not read.
pub open spec fn dxf_kind(t: Seq<char>) -> Option<EntityKind> {
    if t == "LINE"@ {
        Some(EntityKind::Line)
    } else if t == "LWPOLYLINE"@ || t == "POLYLINE"@ || t == "ARC"@ || t == "ELLIPSE"@ {
        Some(EntityKind::Polyline)
    } else if t == "CIRCLE"@ {
        Some(EntityKind::Circle)
    } else if t == "SPLINE"@ {
        Some(EntityKind::Spline)
    } else if t == "HATCH"@ {
        Some(EntityKind::Hatch)
    } else if t == "DIMENSION"@ {
        Some(EntityKind::Dimension)
    } else if t == "TEXT"@ || t == "MTEXT"@ || t == "ATTRIB"@ {
        Some(EntityKind::Text)
    } else if t == "INSERT"@ {
        Some(EntityKind::BlockReference)
    } else {
        None
    }
}

/// The kind of entity a DXF entity type is read as (see `dxf_kind`).
pub fn dxf_entity_kind(entity_type: &str) -> (r: Option<EntityKind>)
    ensures
        r == dxf_kind(entity_type@),
{
    if str_eq(entity_type, "LINE") {
        Some(EntityKind::Line)
    } else if str_eq(entity_type, "LWPOLYLINE") || str_eq(entity_type, "POLYLINE") || str_eq(
        entity_type,
        "ARC",
    ) || str_eq(entity_type, "ELLIPSE") {
        Some(EntityKind::Polyline)
    } else if str_eq(entity_type, "CIRCLE") {
        Some(EntityKind::Circle)
    } else if str_eq(entity_type, "SPLINE") {
        Some(EntityKind::Spline)
    } else if str_eq(entity_type, "HATCH") {
        Some(EntityKind::Hatch)
    } else if str_eq(entity_type, "DIMENSION") {
        Some(EntityKind::Dimension)
    } else if str_eq(entity_type, "TEXT") || str_eq(entity_type, "MTEXT") || str_eq(
        entity_type,
        "ATTRIB",
    ) {
        Some(EntityKind::Text)
    } else if str_eq(entity_type, "INSERT") {
        Some(EntityKind::BlockReference)
    } else {
        None
    }
}

/// The entity that DXF pairs `p` of type `t` give with id `id`: its layer is
/// group 8 (`Default` when missing), and a text entity's text is its groups
/// 3 and 1 joined and cleaned of MTEXT codes.
pub open spec fn dxf_entity_of(p: Seq<(Seq<char>, Seq<char>)>, id: u64, t: Seq<char>) -> Option<
    EntityView,
> {
    match dxf_kind(t) {
        Some(k) => Some(
            (
                id,
                match lookup(p, "8"@) {
                    Some(l) => l,
                    None => "Default"@,
                },
                k,
                if k == EntityKind::Text {
                    dxf_text(joined_text(p))
                } else {
                    seq![]
                },
            ),
        ),
        None => None,
    }
}

/// The entity that DXF pairs of a given type give (see `dxf_entity_of`).
pub fn dxf_entity(pairs: &[(String, String)], id: u64, entity_type: &str) -> (r: Option<Entity>)
    ensures
        match r {
            Some(e) => dxf_entity_of(pairs_view(pairs@), id, entity_type@) == Some(entity_view(e)),
            None => dxf_entity_of(pairs_view(pairs@), id, entity_type@).is_none(),
        },
{
    let kind = match dxf_entity_kind(entity_type) {
        Some(k) => k,
        None => {
            return None;
        },
    };
    let layer = match text_value(pairs, "8") {
        Some(l) => l,
        None => owned("Default"),
    };
    let text = match kind {
        EntityKind::Text => {
            let raw = joined_text_value(pairs);
            normalize_dxf_text(raw.as_str())
        },
        _ => String::new(),
    };
    proof {
        assert(text@ == (if kind == EntityKind::Text {
            dxf_text(joined_text(pairs_view(pairs@)))
        } else {
            seq![]
        }));
    }
    Some(Entity { id, layer, kind, text })
}

} // verus!
