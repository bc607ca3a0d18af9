use vstd::prelude::*;

use crate::allocation::MaybeOwnedArray;
use crate::region::{column_index, to_column_index_wrapping};
use crate::registry::RegistryId;
use crate::space::IVec2;

verus! {

/// A biome, by its index in the biome registry.
#[derive(Copy, Clone, Eq, PartialEq, Debug, Structural)]
pub struct BiomeId(pub u16);

impl BiomeId {
    /// The biome with this registry id, truncated to 16 bits.
    pub fn from_registry_id(value: RegistryId) -> (r: BiomeId)
        ensures
            r.0 == value.0 as u16,
    {
        BiomeId(value.0 as u16)
    }

    /// The registry id of the biome.
    pub fn into_registry_id(self) -> (r: RegistryId)
        ensures
            r.0 == self.0 as usize,
    {
        RegistryId(self.0 as usize)
    }
}

impl From<RegistryId> for BiomeId {
    fn from(value: RegistryId) -> (r: BiomeId) {
        BiomeId::from_registry_id(value)
    }
}

impl vstd::std_specs::convert::FromSpecImpl<RegistryId> for BiomeId {
    open spec fn obeys_from_spec() -> bool {
        true
    }

    open spec fn from_spec(v: RegistryId) -> BiomeId {
        BiomeId(v.0 as u16)
    }
}

/// Biome and height information of one column of a chunk.
#[derive(Copy, Clone, Debug)]
pub struct ColumnData {
    /// BiomeID of the land at this column.
    pub land_biome: BiomeId,
    /// BiomeID of the cave at this column.
    pub cave_biome: BiomeId,
    /// Y value of highest non-air block in this column.
    pub height: i16,
    /// Reserved space for future fields.
    pub unused: [u8; 2],
}

impl ColumnData {
    /// Whether c is the default column: no biome, no height, nothing reserved.
    pub open spec fn is_default(c: ColumnData) -> bool {
        &&& c.land_biome.0 == 0
        &&& c.cave_biome.0 == 0
        &&& c.height == i16::MIN
        &&& c.unused@ == seq![0u8, 0u8]
    }
}

impl Default for ColumnData {
    fn default() -> (r: ColumnData)
        ensures
            ColumnData::is_default(r),
    {
        ColumnData {
            land_biome: BiomeId(0),
            cave_biome: BiomeId(0),
            height: i16::MIN,
            unused: [0u8, 0u8],
        }
    }
}

/// The 32x32 column data of a chunk, by x + 32 * z.
pub struct ColumnMap(MaybeOwnedArray<ColumnData, 1024>);

impl ColumnMap {
    /// The data of each column, by column index.
    pub closed spec fn view(&self) -> Seq<ColumnData> {
        self.0@
    }

    pub closed spec fn wf(&self) -> bool {
        self.0.wf()
    }

    /// There are 1024 columns.
    pub proof fn lemma_len(&self)
        requires
            self.wf(),
        ensures
            self@.len() == 1024,
    {
        self.0.lemma_len();
    }

    /// A column map borrowed from a span of 1024 columns.
    pub fn borrowed(columns: Vec<ColumnData>) -> (r: ColumnMap)
        requires
            columns@.len() == 1024,
        ensures
            r.wf(),
            r@ == columns@,
    {
        ColumnMap(MaybeOwnedArray::borrowed(columns))
    }

    /// A column map with every column equal to fill.
    pub fn new(fill: ColumnData) -> (r: ColumnMap)
        ensures
            r.wf(),
            r@ == Seq::new(1024, |i: int| fill),
    {
        ColumnMap(MaybeOwnedArray::new(fill))
    }

    /// The data of the column holding xz. This function is wrapping and is therefore
    /// infallible.
    pub fn get(&self, xz: IVec2) -> (r: ColumnData)
        requires
            self.wf(),
        ensures
            r == self@[column_index(xz)],
    {
        let i = to_column_index_wrapping(xz);
        self.0.get_unchecked(i)
    }

    /// A mutable reference to the data of the column holding xz. This function is wrapping
    /// and is therefore infallible.
    pub fn get_mut(&mut self, xz: IVec2) -> (r: &mut ColumnData)
        requires
            old(self).wf(),
        ensures
            *r == old(self)@[column_index(xz)],
            final(self).wf(),
            final(self)@ == old(self)@.update(column_index(xz), *final(r)),
    {
        let i = to_column_index_wrapping(xz);
        self.0.get_unchecked_mut(i)
    }

    /// Assign the data of the column holding xz. This function is wrapping and is therefore
    /// infallible.
    pub fn set(&mut self, xz: IVec2, val: ColumnData)
        requires
            old(self).wf(),
        ensures
            final(self).wf(),
            final(self)@ == old(self)@.update(column_index(xz), val),
    {
        let i = to_column_index_wrapping(xz);
        self.0.set_unchecked(i, val)
    }

    /// The data of the column at index i.
    pub fn index_unchecked(&self, i: usize) -> (r: ColumnData)
        requires
            self.wf(),
            i < 1024,
        ensures
            r == self@[i as int],
    {
        self.0.get_unchecked(i)
    }

    /// A mutable reference to the data of the column at index i.
    pub fn index_unchecked_mut(&mut self, i: usize) -> (r: &mut ColumnData)
        requires
            old(self).wf(),
            i < 1024,
        ensures
            *r == old(self)@[i as int],
            final(self).wf(),
            final(self)@ == old(self)@.update(i as int, *final(r)),
    {
        self.0.get_unchecked_mut(i)
    }
}

} // verus!
