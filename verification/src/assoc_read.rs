//! Readers of the parts of associative objects that hold integers, flags
//! and names: the geometry head of a constraint node and an action
//! parameter.
use vstd::prelude::*;

use crate::assoc::{int_or_zero, pos_after, value_after, AssocCursor, AssocDxfRecord, section_pairs};

verus! {

/// The next value with group code `code` from `pos` as an `i32` (0 when
/// there is none or it is not an integer), and the position after it.
pub open spec fn read_int(pairs: Seq<(i32, Seq<char>)>, pos: int, code: i32) -> (i32, int) {
    (int_or_zero(value_after(pairs, pos, code)), pos_after(pairs, pos, code))
}

/// The next value with group code `code` from `pos`, empty when there is
/// none, and the position after it.
pub open spec fn read_text(pairs: Seq<(i32, Seq<char>)>, pos: int, code: i32) -> (Seq<char>, int) {
    (
        match value_after(pairs, pos, code) {
            Some(v) => v,
            None => Seq::<char>::empty(),
        },
        pos_after(pairs, pos, code),
    )
}

/// The owner id and the implied and active flags of a constraint, read
/// from `pos` (an integer under code 90, then two flags under code 290),
/// and the position after them.
pub open spec fn constraint_geometry(pairs: Seq<(i32, Seq<char>)>, pos: int) -> (
    (i32, bool, bool),
    int,
) {
    let (owner_id, p1) = read_int(pairs, pos, 90);
    let (implied, p2) = read_int(pairs, p1, 290);
    let (active, p3) = read_int(pairs, p2, 290);
    ((owner_id, implied != 0, active != 0), p3)
}

/// Read the owner id, implied flag and active flag that start every
/// geometrical constraint.
pub fn read_constraint_geometry(cursor: &mut AssocCursor<'_>) -> (r: (i32, bool, bool))
    requires
        old(cursor).wf(),
    ensures
        final(cursor).wf(),
        final(cursor).pairs() == old(cursor).pairs(),
        (r, final(cursor).pos()) == constraint_geometry(old(cursor).pairs(), old(cursor).pos()),
{
    let owner_id = cursor.i32(90);
    let is_implied = cursor.bool(290);
    let is_active = cursor.bool(290);
    (owner_id, is_implied, is_active)
}

/// The parameter part shared by all action parameters.
pub struct AssocActionParam {
    /// The leading short: non-zero in files of release 2013 and later.
    pub is_r2013: i16,
    /// The version, present when a second integer under code 90 follows.
    pub version: i32,
    pub name: String,
}

/// The pairs of the action parameter section of a record.
pub open spec fn action_param_pairs(record: AssocDxfRecord) -> Seq<(i32, Seq<char>)> {
    section_pairs(record.sections@, "AcDbAssocActionParam"@)
}

/// What `read_action_param` reads from `pairs`: a short under code 90; an
/// integer version under code 90 when the very next pair has that code,
/// else 0; then the name under code 1.
pub open spec fn action_param(pairs: Seq<(i32, Seq<char>)>) -> (i16, i32, Seq<char>) {
    let (head, p1) = read_int(pairs, 0, 90);
    let has_version = p1 < pairs.len() && pairs[p1].0 == 90;
    let (version, p2) = if has_version {
        read_int(pairs, p1, 90)
    } else {
        (0i32, p1)
    };
    (head as i16, version, read_text(pairs, p2, 1).0)
}

/// Read the action parameter section (`AcDbAssocActionParam`) of an
/// associative object.
pub fn read_action_param(record: &AssocDxfRecord) -> (r: AssocActionParam)
    ensures
        (r.is_r2013, r.version, r.name@) == action_param(action_param_pairs(*record)),
{
    let mut cursor = AssocCursor::new(record, "AcDbAssocActionParam");
    let is_r2013 = cursor.i16(90);
    let version = if cursor.peek_code() == Some(90i32) {
        cursor.i32(90)
    } else {
        0
    };
    let name = cursor.text(1);
    AssocActionParam { is_r2013, version, name }
}

} // verus!
