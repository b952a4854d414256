//! Verified core of the Nodalix CAD application: command parsing, selection
//! state, DXF group-code processing, DWG converter configuration and the other
//! parts of the program that do not depend on floating point or on the GUI.
use vstd::prelude::*;

pub mod commands;
pub mod copies;
pub mod document;
pub mod drawing_export;
pub mod dwg;
pub mod dxf;
pub mod dxf_document;
pub mod editing;
pub mod export;
pub mod import;
pub mod layers;
pub mod layouts;
pub mod selection;
pub mod snapping;
pub mod step;
pub mod stl;
pub mod strmap;
pub mod text;
pub mod tools;

verus! {

} // verus!
