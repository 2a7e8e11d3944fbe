//! What the geometry of a polygon feature says of its rings.
use vstd::prelude::*;

use crate::mvt::{
    command, decoded_path, int_points, lemma_path_decodes, path_geometry, ring_end, rings_geometry,
    steps_fit,
};

verus! {

/// The points a polygon ring is written with: all of them, without the
/// last one exactly when it repeats the first point.
pub open spec fn ring_points(r: Seq<(i32, i32)>) -> Seq<(int, int)> {
    if r.last().0 == r[0].0 && r.last().1 == r[0].1 {
        int_points(r.drop_last())
    } else {
        int_points(r)
    }
}

/// Each ring of four or more points that a polygon is written with comes
/// after the geometry of the rings before it, as a move-to and line-tos
/// that decode to all of the ring's points, without the final point exactly
/// when it equals the first point (both coordinates), and a close-path.
pub proof fn lemma_polygon_ring_decodes(rings: Seq<Seq<(i32, i32)>>, r: Seq<(i32, i32)>)
    requires
        r.len() >= 4,
        steps_fit(r, 0, r.len() as int),
    ensures
        ({
            let before = rings_geometry(rings);
            let g = rings_geometry(rings.push(r));
            let ring = g.subrange(before.len() as int, g.len() as int);
            &&& g.subrange(0, before.len() as int) == before
            &&& ring[0] == command(1, 1)
            &&& ring[3] == command(2, (ring_points(r).len() - 1) as u32)
            &&& ring.last() == command(7, 1)
            &&& decoded_path(ring.drop_last()) == ring_points(r)
        }),
{
    let before = rings_geometry(rings);
    let rs = rings.push(r);
    let g = rings_geometry(rs);
    assert(rs.drop_last() =~= rings);
    assert(rs.last() == r);
    let end = ring_end(r);
    let path = path_geometry(r, end);
    let tail = path + seq![command(7, 1)];
    assert(g == before + tail);
    let ring = g.subrange(before.len() as int, g.len() as int);
    assert(ring =~= tail);
    assert(g.subrange(0, before.len() as int) =~= before);
    assert(tail.drop_last() =~= path);
    lemma_ring_points_prefix(r);
    lemma_path_decodes(r, end);
}

proof fn lemma_ring_points_prefix(r: Seq<(i32, i32)>)
    requires
        r.len() >= 4,
        steps_fit(r, 0, r.len() as int),
    ensures
        ring_points(r) == int_points(r.take(ring_end(r))),
        2 <= ring_end(r) <= r.len(),
        steps_fit(r, 0, ring_end(r)),
{
    if r.last().0 == r[0].0 && r.last().1 == r[0].1 {
        assert(r.last() == r[0]);
        assert(r.take(r.len() - 1) =~= r.drop_last());
    } else {
        assert(r.last() != r[0]);
        assert(r.take(r.len() as int) =~= r);
    }
}

} // verus!
