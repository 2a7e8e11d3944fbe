//! Reading, writing and inspecting CAD drawing data: the drawing's symbol
//! tables and the integrity of its handles, layer states, code pages and
//! text escapes, associative-object records and the DXF groups written for
//! them, vector-tile layers, DWG object
//! bit streams with the field lists and entity data read from them, and the
//! records that carry them.
use vstd::prelude::*;

pub mod acds;
pub mod assoc;
pub mod assoc_group_read;
pub mod assoc_names;
pub mod assoc_read;
pub mod assoc_write;
pub mod code_page;
pub mod color_book;
pub mod defaults;
pub mod document;
pub mod dxf_reader;
pub mod dwg_bit_writer;
pub mod dwg_bits;
pub mod dwg_builder;
pub mod entity_common;
pub mod field;
pub mod layer_restore;
pub mod layer_state;
pub mod legacy_viewport;
pub mod loft;
pub mod mif;
pub mod mvt;
pub mod mvt_rings;
pub mod objects;
pub mod seqs;
pub mod text;
pub mod types;
pub mod viewport;
pub mod xdata;

verus! {

} // verus!
