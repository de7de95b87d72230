use vstd::prelude::*;

pub mod dock;
pub mod text;
pub mod windows;
pub mod layout;
pub mod persistence;
pub mod strmap;
pub mod paths;
pub mod desktop;
pub mod icons;
pub mod canvas;
pub mod render;
pub mod panel;
pub mod tracker;
pub mod glyphs;
pub mod raster;

verus! {

} // verus!
