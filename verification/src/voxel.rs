use vstd::prelude::*;

use crate::registry::RegistryId;

verus! {

/// An index of an entry in the Voxels registry.
#[derive(Copy, Clone, Eq, PartialEq, Debug, Hash, Ord, PartialOrd, Structural)]
pub struct Voxel(pub u16);

impl Voxel {
    /// The air voxel, index 0 of the registry.
    pub fn air() -> (v: Voxel)
        ensures
            v.0 == 0,
    {
        Voxel(0)
    }

    /// The registry entry of this voxel.
    pub fn into_registry_id(self) -> (r: RegistryId)
        ensures
            r.0 == self.0 as usize,
    {
        RegistryId(self.0 as usize)
    }

    /// The voxel of a registry entry; the index is truncated to 16 bits.
    pub fn from_registry_id(value: RegistryId) -> (r: Voxel)
        ensures
            r.0 == value.0 as u16,
    {
        Voxel(value.0 as u16)
    }
}

impl Default for Voxel {
    fn default() -> (r: Voxel)
        ensures
            r.0 == 0,
    {
        Voxel(0)
    }
}

impl From<u16> for Voxel {
    fn from(value: u16) -> (r: Voxel)
        ensures
            r.0 == value,
    {
        Voxel(value)
    }
}

impl vstd::std_specs::convert::FromSpecImpl<u16> for Voxel {
    open spec fn obeys_from_spec() -> bool {
        true
    }

    open spec fn from_spec(v: u16) -> Voxel {
        Voxel(v)
    }
}

/// A Voxel's Light value.
#[derive(Copy, Clone, Eq, PartialEq, Hash, Debug, Structural)]
pub struct Light {
    /// The 4 low bits are ambient intensity,
    /// the 4 high bits are torch intensity.
    pub intensity: u8,
}

impl Light {
    /// A light value where all fields are 0.
    pub fn zero() -> (r: Light)
        ensures
            r.intensity == 0,
    {
        Light { intensity: 0 }
    }

    /// A light value where all fields are 0.
    pub fn ambient_none() -> (r: Light)
        ensures
            r.intensity == 0,
    {
        Light { intensity: 0 }
    }

    /// A light value with ambient intensity set to 15 and everything else set to 0.
    pub fn ambient_full() -> (r: Light)
        ensures
            r.intensity == 0xF,
    {
        Light { intensity: 0xF }
    }

    /// Instantiate a new Light instance. Values are meant to be in the range 0..=15.
    /// Colors are not stored: colored lights are disabled.
    pub fn new(ambient_intensity: u8, torch_intensity: u8, color_hue: u8, color_lightness: u8) -> (r:
        Light)
        ensures
            r.intensity == ambient_intensity | ((torch_intensity << 4u8) as u8),
    {
        Light { intensity: ambient_intensity | (torch_intensity << 4u8) }
    }

    /// Assign the HSL Hue of the light color. Does nothing: colored lights are disabled.
    pub fn set_color_hue(&mut self, v: u8)
        ensures
            *final(self) == *old(self),
    {
    }

    /// Assign the HSL Lightness of the light color. Does nothing: colored lights are disabled.
    pub fn set_color_lightness(&mut self, v: u8)
        ensures
            *final(self) == *old(self),
    {
    }

    /// Assign the HSL Hue and Lightness. Does nothing: colored lights are disabled.
    pub fn set_color(&mut self, color_hue: u8, color_lightness: u8)
        ensures
            *final(self) == *old(self),
    {
    }

    /// Assign ambient intensity. Value is meant to be in the range 0..=15.
    pub fn set_ambient_intensity(&mut self, v: u8)
        ensures
            final(self).intensity == (old(self).intensity & !0xFu8) | v,
    {
        self.intensity = (self.intensity & !0xFu8) | v;
    }

    /// Assign torch intensity. Value is meant to be in the range 0..=15.
    pub fn set_torch_intensity(&mut self, v: u8)
        ensures
            final(self).intensity == (old(self).intensity & 0xFu8) | ((v << 4u8) as u8),
    {
        self.intensity = (self.intensity & 0xFu8) | (v << 4u8);
    }

    /// Assign torch intensity and ambient intensity. Values are meant to be in the range 0..=15.
    pub fn set_intensity(&mut self, ambient: u8, torch: u8)
        ensures
            final(self).intensity == ambient | ((torch << 4u8) as u8),
    {
        self.intensity = ambient | (torch << 4u8);
    }

    /// Get the ambient intensity, in the range 0..=15.
    pub fn ambient_intensity(&self) -> (r: u8)
        ensures
            r == self.intensity & 0xFu8,
            r <= 15,
    {
        proof {
            let i = self.intensity;
            assert(i & 0xFu8 <= 15) by (bit_vector);
        }
        self.intensity & 0xF
    }

    /// Get the torch intensity, in the range 0..=15.
    pub fn torch_intensity(&self) -> (r: u8)
        ensures
            r == self.intensity >> 4u8,
            r <= 15,
    {
        proof {
            let i = self.intensity;
            assert(i >> 4u8 <= 15) by (bit_vector);
        }
        self.intensity >> 4
    }

    /// The HSL Hue of the light color: always 0, since colored lights are disabled.
    pub fn color_hue(&self) -> (r: u8)
        ensures
            r == 0,
    {
        0
    }

    /// The HSL lightness of the light color: always 0, since colored lights are disabled.
    pub fn color_lightness(&self) -> (r: u8)
        ensures
            r == 0,
    {
        0
    }
}

impl Default for Light {
    fn default() -> (r: Light)
        ensures
            r.intensity == 0xF,
    {
        Light { intensity: 0xF }
    }
}

/// Intensities in range are read back by the getters after being packed by `Light::new`.
pub proof fn lemma_light_new_roundtrip(ambient: u8, torch: u8)
    requires
        ambient <= 15,
        torch <= 15,
    ensures
        (ambient | ((torch << 4u8) as u8)) & 0xFu8 == ambient,
        (ambient | ((torch << 4u8) as u8)) >> 4u8 == torch,
{
    assert((ambient | ((torch << 4u8) as u8)) & 0xFu8 == ambient && (ambient | ((torch << 4u8)
        as u8)) >> 4u8 == torch) by (bit_vector)
        requires
            ambient <= 15,
            torch <= 15,
    ;
}

/// Assigning one intensity reads back that value and leaves the other intensity unchanged.
pub proof fn lemma_light_set_intensities(intensity: u8, v: u8)
    requires
        v <= 15,
    ensures
        ((intensity & !0xFu8) | v) & 0xFu8 == v,
        ((intensity & !0xFu8) | v) >> 4u8 == intensity >> 4u8,
        ((intensity & 0xFu8) | ((v << 4u8) as u8)) >> 4u8 == v,
        ((intensity & 0xFu8) | ((v << 4u8) as u8)) & 0xFu8 == intensity & 0xFu8,
{
    assert(((intensity & !0xFu8) | v) & 0xFu8 == v && ((intensity & !0xFu8) | v) >> 4u8 == intensity
        >> 4u8 && ((intensity & 0xFu8) | ((v << 4u8) as u8)) >> 4u8 == v && ((intensity & 0xFu8) | ((v
        << 4u8) as u8)) & 0xFu8 == intensity & 0xFu8) by (bit_vector)
        requires
            v <= 15,
    ;
}

/// Information about an instance of a voxel in the world, including its index and light value.
#[derive(Copy, Clone, Eq, PartialEq, Debug, Hash, Structural)]
pub struct VoxelState {
    pub voxel: Voxel,
    pub light: Light,
}

impl VoxelState {
    /// Air with full ambient light.
    pub fn air() -> (r: VoxelState)
        ensures
            r.voxel.0 == 0,
            r.light.intensity == 0xF,
    {
        VoxelState { voxel: Voxel(0), light: Light { intensity: 0xF } }
    }
}

impl Default for VoxelState {
    fn default() -> (r: VoxelState)
        ensures
            r.voxel.0 == 0,
            r.light.intensity == 0xF,
    {
        VoxelState::air()
    }
}

} // verus!
