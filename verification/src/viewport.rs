//! The paper-space viewport entity, as far as its view parameters go.
use vstd::prelude::*;

use crate::types::{Handle, Vector3};
use crate::xdata::ExtendedData;

verus! {

/// The viewport status flags (DXF group 90), one field per bit.
#[derive(Clone, Copy, Debug, PartialEq, Eq, Structural)]
pub struct ViewportStatusFlags {
    /// 0x1
    pub perspective: bool,
    /// 0x2
    pub front_clipping: bool,
    /// 0x4
    pub back_clipping: bool,
    /// 0x8
    pub ucs_follow: bool,
    /// 0x10
    pub front_clip_not_at_eye: bool,
    /// 0x80
    pub fast_zoom: bool,
    /// 0x100
    pub snap_on: bool,
    /// 0x200
    pub grid_on: bool,
    /// 0x400
    pub isometric_snap: bool,
    /// 0x800
    pub hide_plot: bool,
    /// 0x1000
    pub iso_pair_top: bool,
    /// 0x2000
    pub iso_pair_right: bool,
    /// 0x4000
    pub zoom_locking: bool,
    /// 0x8000
    pub always_enabled: bool,
    /// 0x10000
    pub non_rectangular_clipping: bool,
    /// 0x20000
    pub turned_off: bool,
}

/// The bit of `flag` at `bit`.
pub open spec fn flag_bit(flag: bool, bit: i32) -> i32 {
    if flag {
        bit
    } else {
        0
    }
}

/// The flags as the status word.
pub open spec fn status_bits(s: ViewportStatusFlags) -> i32 {
    flag_bit(s.perspective, 0x1) | flag_bit(s.front_clipping, 0x2) | flag_bit(s.back_clipping, 0x4)
        | flag_bit(s.ucs_follow, 0x8) | flag_bit(s.front_clip_not_at_eye, 0x10) | flag_bit(
        s.fast_zoom,
        0x80,
    ) | flag_bit(s.snap_on, 0x100) | flag_bit(s.grid_on, 0x200) | flag_bit(s.isometric_snap, 0x400)
        | flag_bit(s.hide_plot, 0x800) | flag_bit(s.iso_pair_top, 0x1000) | flag_bit(
        s.iso_pair_right,
        0x2000,
    ) | flag_bit(s.zoom_locking, 0x4000) | flag_bit(s.always_enabled, 0x8000) | flag_bit(
        s.non_rectangular_clipping,
        0x10000,
    ) | flag_bit(s.turned_off, 0x20000)
}

/// The flags of a status word; bits without a flag are dropped.
pub open spec fn status_from_bits(b: i32) -> ViewportStatusFlags {
    ViewportStatusFlags {
        perspective: b & 0x1 != 0,
        front_clipping: b & 0x2 != 0,
        back_clipping: b & 0x4 != 0,
        ucs_follow: b & 0x8 != 0,
        front_clip_not_at_eye: b & 0x10 != 0,
        fast_zoom: b & 0x80 != 0,
        snap_on: b & 0x100 != 0,
        grid_on: b & 0x200 != 0,
        isometric_snap: b & 0x400 != 0,
        hide_plot: b & 0x800 != 0,
        iso_pair_top: b & 0x1000 != 0,
        iso_pair_right: b & 0x2000 != 0,
        zoom_locking: b & 0x4000 != 0,
        always_enabled: b & 0x8000 != 0,
        non_rectangular_clipping: b & 0x10000 != 0,
        turned_off: b & 0x20000 != 0,
    }
}

fn bit_of(flag: bool, bit: i32) -> (r: i32)
    ensures
        r == flag_bit(flag, bit),
{
    if flag {
        bit
    } else {
        0
    }
}

impl ViewportStatusFlags {
    pub fn from_bits(b: i32) -> (r: Self)
        ensures
            r == status_from_bits(b),
    {
        ViewportStatusFlags {
            perspective: b & 0x1 != 0,
            front_clipping: b & 0x2 != 0,
            back_clipping: b & 0x4 != 0,
            ucs_follow: b & 0x8 != 0,
            front_clip_not_at_eye: b & 0x10 != 0,
            fast_zoom: b & 0x80 != 0,
            snap_on: b & 0x100 != 0,
            grid_on: b & 0x200 != 0,
            isometric_snap: b & 0x400 != 0,
            hide_plot: b & 0x800 != 0,
            iso_pair_top: b & 0x1000 != 0,
            iso_pair_right: b & 0x2000 != 0,
            zoom_locking: b & 0x4000 != 0,
            always_enabled: b & 0x8000 != 0,
            non_rectangular_clipping: b & 0x10000 != 0,
            turned_off: b & 0x20000 != 0,
        }
    }

    pub fn to_bits(&self) -> (r: i32)
        ensures
            r == status_bits(*self),
    {
        bit_of(self.perspective, 0x1) | bit_of(self.front_clipping, 0x2) | bit_of(
            self.back_clipping,
            0x4,
        ) | bit_of(self.ucs_follow, 0x8) | bit_of(self.front_clip_not_at_eye, 0x10) | bit_of(
            self.fast_zoom,
            0x80,
        ) | bit_of(self.snap_on, 0x100) | bit_of(self.grid_on, 0x200) | bit_of(
            self.isometric_snap,
            0x400,
        ) | bit_of(self.hide_plot, 0x800) | bit_of(self.iso_pair_top, 0x1000) | bit_of(
            self.iso_pair_right,
            0x2000,
        ) | bit_of(self.zoom_locking, 0x4000) | bit_of(self.always_enabled, 0x8000) | bit_of(
            self.non_rectangular_clipping,
            0x10000,
        ) | bit_of(self.turned_off, 0x20000)
    }
}

/// What every entity carries besides its own data.
#[derive(Clone, Debug, PartialEq)]
pub struct EntityCommon {
    pub handle: Handle,
    pub owner: Handle,
    pub extended_data: ExtendedData,
}

/// A paper-space viewport. Lengths and coordinates are IEEE-754 `f64` bit
/// patterns; the two angles are held in degrees, as the MVIEW data stores
/// them.
#[derive(Clone, Debug, PartialEq)]
pub struct Viewport {
    pub common: EntityCommon,
    pub view_target: Vector3,
    pub view_direction: Vector3,
    pub twist_angle_degrees: u64,
    pub view_height: u64,
    pub view_center: Vector3,
    pub lens_length: u64,
    pub front_clip_z: u64,
    pub back_clip_z: u64,
    pub status: ViewportStatusFlags,
    pub circle_sides: i16,
    pub ucs_icon_visible: bool,
    pub ucs_at_origin: bool,
    pub snap_angle_degrees: u64,
    pub snap_base: Vector3,
    pub snap_spacing: Vector3,
    pub grid_spacing: Vector3,
    /// The layers frozen in this viewport.
    pub frozen_layers: Vec<Handle>,
}

impl Viewport {
    /// A viewport looking down the Z axis, with a lens of 50, snap and grid
    /// spacing of 10, 1000 circle sides and no frozen layers.
    pub fn new() -> (r: Self)
        ensures
            r.frozen_layers@.len() == 0,
            r.common.extended_data.records@.len() == 0,
    {
        let one: u64 = 0x3ff0_0000_0000_0000;
        let ten: u64 = 0x4024_0000_0000_0000;
        let fifty: u64 = 0x4049_0000_0000_0000;
        Viewport {
            common: EntityCommon {
                handle: Handle(0),
                owner: Handle(0),
                extended_data: ExtendedData::new(),
            },
            view_target: Vector3::zero(),
            view_direction: Vector3::new(0, 0, one),
            twist_angle_degrees: 0,
            view_height: 0,
            view_center: Vector3::zero(),
            lens_length: fifty,
            front_clip_z: 0,
            back_clip_z: 0,
            status: ViewportStatusFlags::from_bits(0x8000),
            circle_sides: 1000,
            ucs_icon_visible: true,
            ucs_at_origin: false,
            snap_angle_degrees: 0,
            snap_base: Vector3::zero(),
            snap_spacing: Vector3::new(ten, ten, 0),
            grid_spacing: Vector3::new(ten, ten, 0),
            frozen_layers: Vec::new(),
        }
    }
}

} // verus!
