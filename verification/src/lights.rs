use vstd::prelude::*;

use crate::allocation::MaybeOwnedArray;
use crate::voxel::Light;

verus! {

/// The light value of every voxel of a subchunk. A uniform lightmap of full ambient light or of
/// no light is borrowed from a shared uniform buffer instead of being allocated.
pub struct Lights(MaybeOwnedArray<Light, 32768>);

impl Lights {
    /// The light of each voxel, by index.
    pub closed spec fn view(&self) -> Seq<Light> {
        self.0@
    }

    /// Whether the lightmap owns its buffer.
    pub closed spec fn owned_spec(&self) -> bool {
        self.0.owned_spec()
    }

    pub closed spec fn wf(&self) -> bool {
        self.0.wf()
    }

    /// There is one light value per voxel.
    pub proof fn lemma_len(&self)
        requires
            self.wf(),
        ensures
            self@.len() == 32768,
    {
        self.0.lemma_len();
    }

    /// A lightmap with no light, borrowed from a shared uniform buffer.
    pub fn uniform_ambient_none() -> (r: Lights)
        ensures
            r.wf(),
            !r.owned_spec(),
            r@ == Seq::new(32768, |i: int| Light { intensity: 0 }),
    {
        Lights(MaybeOwnedArray::borrowed_uniform(Light::ambient_none()))
    }

    /// A lightmap of full ambient light, borrowed from a shared uniform buffer.
    pub fn uniform_ambient_full() -> (r: Lights)
        ensures
            r.wf(),
            !r.owned_spec(),
            r@ == Seq::new(32768, |i: int| Light { intensity: 0xF }),
    {
        Lights(MaybeOwnedArray::borrowed_uniform(Light::ambient_full()))
    }

    /// A lightmap with every value equal to fill. If fill is full ambient light or no light, no
    /// buffer is allocated and the lightmap borrows a shared uniform buffer.
    pub fn new(fill: Light) -> (r: Lights)
        ensures
            r.wf(),
            r@ == Seq::new(32768, |i: int| fill),
            r.owned_spec() == (fill.intensity != 0xF && fill.intensity != 0),
    {
        if fill == Light::ambient_full() {
            Lights::uniform_ambient_full()
        } else if fill == Light::ambient_none() {
            Lights::uniform_ambient_none()
        } else {
            let mut v = Lights::uniform_ambient_full();
            v.fill(fill);
            v
        }
    }

    /// Assign a value to every index. If the value is full ambient light or no light, the
    /// lightmap releases its buffer and borrows a shared uniform buffer.
    pub fn fill(&mut self, light: Light)
        requires
            old(self).wf(),
        ensures
            final(self).wf(),
            final(self)@ == Seq::new(32768, |i: int| light),
            final(self).owned_spec() == (light.intensity != 0xF && light.intensity != 0),
    {
        if light == Light::ambient_full() {
            *self = Lights::uniform_ambient_full();
            return;
        }
        if light == Light::ambient_none() {
            *self = Lights::uniform_ambient_none();
            return;
        }
        self.0.to_owned_ptr();
        self.0.fill(light);
    }

    /// The light value of the voxel at index i.
    pub fn get(&self, i: usize) -> (r: Light)
        requires
            self.wf(),
            i < 32768,
        ensures
            r == self@[i as int],
    {
        self.0.get_unchecked(i)
    }

    /// Assign the light value of the voxel at index i.
    pub fn set(&mut self, i: usize, v: Light)
        requires
            old(self).wf(),
            i < 32768,
        ensures
            final(self).wf(),
            final(self)@ == old(self)@.update(i as int, v),
            final(self).owned_spec() == (old(self).owned_spec() || v != old(self)@[i as int]),
    {
        self.replace(i, v);
    }

    /// Assign the light value of the voxel at index i, returning the previous value.
    /// A borrowed lightmap is copied into its own buffer first when the value changes.
    pub fn replace(&mut self, i: usize, v: Light) -> (r: Light)
        requires
            old(self).wf(),
            i < 32768,
        ensures
            final(self).wf(),
            r == old(self)@[i as int],
            final(self)@ == old(self)@.update(i as int, v),
            final(self).owned_spec() == (old(self).owned_spec() || v != old(self)@[i as int]),
    {
        let curr = self.0.get_unchecked(i);
        if self.0.is_borrowed() && v != curr {
            self.0.to_owned_ptr();
        }
        if v != curr {
            self.0.set_unchecked(i, v);
        } else {
            proof {
                self.0.lemma_len();
                assert(self.0@ =~= self.0@.update(i as int, v));
            }
        }
        curr
    }
}

} // verus!
