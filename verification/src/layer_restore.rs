//! What restoring a layer state does to the layer it finds for each saved
//! layer, property by property.
use vstd::prelude::*;

use crate::layer_state::{
    restore_target, restored_table, selects, view_named, LayerStateLayerView, LayerView,
};
use crate::seqs::{first_index, lemma_first_index_facts};

verus! {

proof fn lemma_single_bit_selects(mask: u32)
    ensures
        selects(mask, 0x0001) == (mask & 0x0001 != 0),
        selects(mask, 0x0002) == (mask & 0x0002 != 0),
        selects(mask, 0x0004) == (mask & 0x0004 != 0),
        selects(mask, 0x0008) == (mask & 0x0008 != 0),
        selects(mask, 0x0010) == (mask & 0x0010 != 0),
        selects(mask, 0x0020) == (mask & 0x0020 != 0),
        selects(mask, 0x0040) == (mask & 0x0040 != 0),
        selects(mask, 0x0080) == (mask & 0x0080 != 0),
        selects(mask, 0x0100) == (mask & 0x0100 != 0),
        selects(mask, 0x0400) == (mask & 0x0400 != 0),
{
    assert((mask & 0x0001 == 0x0001) == (mask & 0x0001 != 0)) by (bit_vector);
    assert((mask & 0x0002 == 0x0002) == (mask & 0x0002 != 0)) by (bit_vector);
    assert((mask & 0x0004 == 0x0004) == (mask & 0x0004 != 0)) by (bit_vector);
    assert((mask & 0x0008 == 0x0008) == (mask & 0x0008 != 0)) by (bit_vector);
    assert((mask & 0x0010 == 0x0010) == (mask & 0x0010 != 0)) by (bit_vector);
    assert((mask & 0x0020 == 0x0020) == (mask & 0x0020 != 0)) by (bit_vector);
    assert((mask & 0x0040 == 0x0040) == (mask & 0x0040 != 0)) by (bit_vector);
    assert((mask & 0x0080 == 0x0080) == (mask & 0x0080 != 0)) by (bit_vector);
    assert((mask & 0x0100 == 0x0100) == (mask & 0x0100 != 0)) by (bit_vector);
    assert((mask & 0x0400 == 0x0400) == (mask & 0x0400 != 0)) by (bit_vector);
}

/// Restoring one more saved layer `s` changes only the layer it finds (the
/// first layer named like its target); on that layer each property whose
/// bit the mask holds takes the saved value: ON (0x1) the off flag, FROZEN
/// (0x2), LOCKED (0x4), PLOT (0x8), NEW_VIEWPORT (0x10), COLOR (0x20),
/// LINE_TYPE (0x40, when a line type was saved), LINE_WEIGHT (0x80),
/// PLOT_STYLE (0x100) and TRANSPARENCY (0x400, when one was saved); every
/// other property, its handle and its name stay as they were. When no
/// layer is found, nothing changes.
pub proof fn lemma_restore_applies_selected(
    ls: Seq<LayerView>,
    mask: u32,
    saved: Seq<LayerStateLayerView>,
    s: LayerStateLayerView,
)
    ensures
        ({
            let before = restored_table(ls, mask, saved).0;
            let after = restored_table(ls, mask, saved.push(s)).0;
            let i = first_index(before, view_named(restore_target(before, s)));
            &&& after.len() == before.len()
            &&& i < 0 ==> after == before
            &&& forall|j: int| 0 <= j < after.len() && j != i ==> #[trigger] after[j] == before[j]
            &&& i >= 0 ==> {
                let b = before[i];
                let a = after[i];
                &&& a.handle == b.handle
                &&& a.name == b.name
                &&& a.flags.off == if mask & 0x0001 != 0 {
                    s.off
                } else {
                    b.flags.off
                }
                &&& a.flags.frozen == if mask & 0x0002 != 0 {
                    s.frozen
                } else {
                    b.flags.frozen
                }
                &&& a.flags.locked == if mask & 0x0004 != 0 {
                    s.locked
                } else {
                    b.flags.locked
                }
                &&& a.is_plottable == if mask & 0x0008 != 0 {
                    s.plottable
                } else {
                    b.is_plottable
                }
                &&& a.flags.frozen_in_new_viewport == if mask & 0x0010 != 0 {
                    s.new_viewport_frozen
                } else {
                    b.flags.frozen_in_new_viewport
                }
                &&& a.color == if mask & 0x0020 != 0 {
                    s.color
                } else {
                    b.color
                }
                &&& a.line_type == if mask & 0x0040 != 0 && s.line_type.len() > 0 {
                    s.line_type
                } else {
                    b.line_type
                }
                &&& a.line_weight == if mask & 0x0080 != 0 {
                    s.line_weight
                } else {
                    b.line_weight
                }
                &&& a.plot_style == if mask & 0x0100 != 0 {
                    s.plot_style
                } else {
                    b.plot_style
                }
                &&& a.transparency == if mask & 0x0400 != 0 && s.transparency is Some {
                    s.transparency->0
                } else {
                    b.transparency
                }
            }
        }),
{
    lemma_single_bit_selects(mask);
    let sp = saved.push(s);
    assert(sp.drop_last() =~= saved);
    assert(sp.last() == s);
    let before = restored_table(ls, mask, saved).0;
    lemma_first_index_facts(before, view_named(restore_target(before, s)));
}

} // verus!
