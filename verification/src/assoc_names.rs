//! The class names of associative objects: which surface action body a
//! DXF class name denotes, the subclass section that holds its own data,
//! and which constraint classes carry nothing but the common geometry
//! head.
use vstd::prelude::*;

use crate::text::{eq_ignore_ascii_case, eq_ignore_case, same_text};

verus! {

/// The kinds of surface action bodies.
#[derive(Clone, Copy, Debug, PartialEq, Eq, Structural)]
pub enum AssocSurfaceActionKind {
    Plane,
    Extend,
    Extruded,
    Lofted,
    Network,
    Offset,
    Revolved,
    Trim,
    Blend,
    Patch,
    Fillet,
    Swept,
    EdgeChamfer,
    EdgeFillet,
}

/// The surface action kind that the DXF class name `name` denotes.
pub open spec fn surface_kind_of(name: Seq<char>) -> Option<AssocSurfaceActionKind> {
    if name == "ASSOCPLANESURFACEACTIONBODY"@ {
        Some(AssocSurfaceActionKind::Plane)
    }
    else if name == "ASSOCEXTENDSURFACEACTIONBODY"@ {
        Some(AssocSurfaceActionKind::Extend)
    }
    else if name == "ASSOCEXTRUDEDSURFACEACTIONBODY"@ {
        Some(AssocSurfaceActionKind::Extruded)
    }
    else if name == "ASSOCLOFTEDSURFACEACTIONBODY"@ {
        Some(AssocSurfaceActionKind::Lofted)
    }
    else if name == "ASSOCNETWORKSURFACEACTIONBODY"@ {
        Some(AssocSurfaceActionKind::Network)
    }
    else if name == "ASSOCOFFSETSURFACEACTIONBODY"@ {
        Some(AssocSurfaceActionKind::Offset)
    }
    else if name == "ASSOCREVOLVEDSURFACEACTIONBODY"@ {
        Some(AssocSurfaceActionKind::Revolved)
    }
    else if name == "ASSOCTRIMSURFACEACTIONBODY"@ {
        Some(AssocSurfaceActionKind::Trim)
    }
    else if name == "ASSOCBLENDSURFACEACTIONBODY"@ {
        Some(AssocSurfaceActionKind::Blend)
    }
    else if name == "ASSOCPATCHSURFACEACTIONBODY"@ {
        Some(AssocSurfaceActionKind::Patch)
    }
    else if name == "ASSOCFILLETSURFACEACTIONBODY"@ {
        Some(AssocSurfaceActionKind::Fillet)
    }
    else if name == "ASSOCSWEPTSURFACEACTIONBODY"@ {
        Some(AssocSurfaceActionKind::Swept)
    }
    else if name == "ASSOCEDGECHAMFERACTIONBODY"@ {
        Some(AssocSurfaceActionKind::EdgeChamfer)
    }
    else if name == "ASSOCEDGEFILLETACTIONBODY"@ {
        Some(AssocSurfaceActionKind::EdgeFillet)
    }
    else {
        None
    }
}

/// The kind of surface action body whose DXF class name is `name`
/// (exactly, case included), if it names one.
pub fn surface_kind(name: &str) -> (r: Option<AssocSurfaceActionKind>)
    ensures
        r == surface_kind_of(name@),
{
    if same_text(name, "ASSOCPLANESURFACEACTIONBODY") {
        Some(AssocSurfaceActionKind::Plane)
    }
    else if same_text(name, "ASSOCEXTENDSURFACEACTIONBODY") {
        Some(AssocSurfaceActionKind::Extend)
    }
    else if same_text(name, "ASSOCEXTRUDEDSURFACEACTIONBODY") {
        Some(AssocSurfaceActionKind::Extruded)
    }
    else if same_text(name, "ASSOCLOFTEDSURFACEACTIONBODY") {
        Some(AssocSurfaceActionKind::Lofted)
    }
    else if same_text(name, "ASSOCNETWORKSURFACEACTIONBODY") {
        Some(AssocSurfaceActionKind::Network)
    }
    else if same_text(name, "ASSOCOFFSETSURFACEACTIONBODY") {
        Some(AssocSurfaceActionKind::Offset)
    }
    else if same_text(name, "ASSOCREVOLVEDSURFACEACTIONBODY") {
        Some(AssocSurfaceActionKind::Revolved)
    }
    else if same_text(name, "ASSOCTRIMSURFACEACTIONBODY") {
        Some(AssocSurfaceActionKind::Trim)
    }
    else if same_text(name, "ASSOCBLENDSURFACEACTIONBODY") {
        Some(AssocSurfaceActionKind::Blend)
    }
    else if same_text(name, "ASSOCPATCHSURFACEACTIONBODY") {
        Some(AssocSurfaceActionKind::Patch)
    }
    else if same_text(name, "ASSOCFILLETSURFACEACTIONBODY") {
        Some(AssocSurfaceActionKind::Fillet)
    }
    else if same_text(name, "ASSOCSWEPTSURFACEACTIONBODY") {
        Some(AssocSurfaceActionKind::Swept)
    }
    else if same_text(name, "ASSOCEDGECHAMFERACTIONBODY") {
        Some(AssocSurfaceActionKind::EdgeChamfer)
    }
    else if same_text(name, "ASSOCEDGEFILLETACTIONBODY") {
        Some(AssocSurfaceActionKind::EdgeFillet)
    }
    else {
        None
    }
}

/// The name of the subclass section that holds the data of a surface
/// action body of kind `kind`.
pub open spec fn surface_section_name(kind: AssocSurfaceActionKind) -> Seq<char> {
    match kind {
        AssocSurfaceActionKind::Plane => "AcDbAssocPlaneSurfaceActionBody"@,
        AssocSurfaceActionKind::Extend => "AcDbAssocExtendSurfaceActionBody"@,
        AssocSurfaceActionKind::Extruded => "AcDbAssocExtrudedSurfaceActionBody"@,
        AssocSurfaceActionKind::Lofted => "AcDbAssocLoftedSurfaceActionBody"@,
        AssocSurfaceActionKind::Network => "AcDbAssocNetworkSurfaceActionBody"@,
        AssocSurfaceActionKind::Offset => "AcDbAssocOffsetSurfaceActionBody"@,
        AssocSurfaceActionKind::Revolved => "AcDbAssocRevolvedSurfaceActionBody"@,
        AssocSurfaceActionKind::Trim => "AcDbAssocTrimSurfaceActionBody"@,
        AssocSurfaceActionKind::Blend => "AcDbAssocBlendSurfaceActionBody"@,
        AssocSurfaceActionKind::Patch => "AcDbAssocPatchSurfaceActionBody"@,
        AssocSurfaceActionKind::Fillet => "AcDbAssocFilletSurfaceActionBody"@,
        AssocSurfaceActionKind::Swept => "AcDbAssocSweptSurfaceActionBody"@,
        AssocSurfaceActionKind::EdgeChamfer => "AcDbAssocEdgeChamferActionBody"@,
        AssocSurfaceActionKind::EdgeFillet => "AcDbAssocEdgeFilletActionBody"@,
    }
}

/// The subclass section that holds the data of a surface action body of
/// kind `kind`.
pub fn surface_section(kind: AssocSurfaceActionKind) -> (r: &'static str)
    ensures
        r@ == surface_section_name(kind),
{
    match kind {
        AssocSurfaceActionKind::Plane => "AcDbAssocPlaneSurfaceActionBody",
        AssocSurfaceActionKind::Extend => "AcDbAssocExtendSurfaceActionBody",
        AssocSurfaceActionKind::Extruded => "AcDbAssocExtrudedSurfaceActionBody",
        AssocSurfaceActionKind::Lofted => "AcDbAssocLoftedSurfaceActionBody",
        AssocSurfaceActionKind::Network => "AcDbAssocNetworkSurfaceActionBody",
        AssocSurfaceActionKind::Offset => "AcDbAssocOffsetSurfaceActionBody",
        AssocSurfaceActionKind::Revolved => "AcDbAssocRevolvedSurfaceActionBody",
        AssocSurfaceActionKind::Trim => "AcDbAssocTrimSurfaceActionBody",
        AssocSurfaceActionKind::Blend => "AcDbAssocBlendSurfaceActionBody",
        AssocSurfaceActionKind::Patch => "AcDbAssocPatchSurfaceActionBody",
        AssocSurfaceActionKind::Fillet => "AcDbAssocFilletSurfaceActionBody",
        AssocSurfaceActionKind::Swept => "AcDbAssocSweptSurfaceActionBody",
        AssocSurfaceActionKind::EdgeChamfer => "AcDbAssocEdgeChamferActionBody",
        AssocSurfaceActionKind::EdgeFillet => "AcDbAssocEdgeFilletActionBody",
    }
}

/// The constraint class `name` (ignoring ASCII case) carries no data of
/// its own beyond the owner id and the implied and active flags.
pub open spec fn plain_geometrical_constraint(name: Seq<char>) -> bool {
    ||| eq_ignore_case(name, "ACCENTERPOINTCONSTRAINT"@)
    ||| eq_ignore_case(name, "ACCOLINEARCONSTRAINT"@)
    ||| eq_ignore_case(name, "ACCONCENTRICCONSTRAINT"@)
    ||| eq_ignore_case(name, "ACEQUALCURVATURECONSTRAINT"@)
    ||| eq_ignore_case(name, "ACEQUALDISTANCECONSTRAINT"@)
    ||| eq_ignore_case(name, "ACEQUALHELPPARAMETERCONSTRAINT"@)
    ||| eq_ignore_case(name, "ACEQUALLENGTHCONSTRAINT"@)
    ||| eq_ignore_case(name, "ACEQUALRADIUSCONSTRAINT"@)
    ||| eq_ignore_case(name, "ACFIXEDCONSTRAINT"@)
    ||| eq_ignore_case(name, "ACHORIZONTALCONSTRAINT"@)
    ||| eq_ignore_case(name, "ACMIDPOINTCONSTRAINT"@)
    ||| eq_ignore_case(name, "ACNORMALCONSTRAINT"@)
    ||| eq_ignore_case(name, "ACPERPENDICULARCONSTRAINT"@)
    ||| eq_ignore_case(name, "ACPOINTCOINCIDENCECONSTRAINT"@)
    ||| eq_ignore_case(name, "ACPOINTCURVECONSTRAINT"@)
    ||| eq_ignore_case(name, "ACSYMMETRICCONSTRAINT"@)
    ||| eq_ignore_case(name, "ACTANGENTCONSTRAINT"@)
    ||| eq_ignore_case(name, "ACVERTICALCONSTRAINT"@)
}

/// Whether the constraint class `name` is one of those that carry only
/// the common geometry head (owner id, implied and active flags).
pub fn is_dxf_plain_geometrical_constraint(class_name: &str) -> (r: bool)
    ensures
        r == plain_geometrical_constraint(class_name@),
{
    eq_ignore_ascii_case(class_name, "ACCENTERPOINTCONSTRAINT")
    || eq_ignore_ascii_case(class_name, "ACCOLINEARCONSTRAINT")
    || eq_ignore_ascii_case(class_name, "ACCONCENTRICCONSTRAINT")
    || eq_ignore_ascii_case(class_name, "ACEQUALCURVATURECONSTRAINT")
    || eq_ignore_ascii_case(class_name, "ACEQUALDISTANCECONSTRAINT")
    || eq_ignore_ascii_case(class_name, "ACEQUALHELPPARAMETERCONSTRAINT")
    || eq_ignore_ascii_case(class_name, "ACEQUALLENGTHCONSTRAINT")
    || eq_ignore_ascii_case(class_name, "ACEQUALRADIUSCONSTRAINT")
    || eq_ignore_ascii_case(class_name, "ACFIXEDCONSTRAINT")
    || eq_ignore_ascii_case(class_name, "ACHORIZONTALCONSTRAINT")
    || eq_ignore_ascii_case(class_name, "ACMIDPOINTCONSTRAINT")
    || eq_ignore_ascii_case(class_name, "ACNORMALCONSTRAINT")
    || eq_ignore_ascii_case(class_name, "ACPERPENDICULARCONSTRAINT")
    || eq_ignore_ascii_case(class_name, "ACPOINTCOINCIDENCECONSTRAINT")
    || eq_ignore_ascii_case(class_name, "ACPOINTCURVECONSTRAINT")
    || eq_ignore_ascii_case(class_name, "ACSYMMETRICCONSTRAINT")
    || eq_ignore_ascii_case(class_name, "ACTANGENTCONSTRAINT")
    || eq_ignore_ascii_case(class_name, "ACVERTICALCONSTRAINT")
}

} // verus!
