//! The point index: which coordinates it accepts, and the ordered list of
//! points it was built from.

use vstd::prelude::*;

verus! {

/// The eleven exponent bits of a binary64 bit pattern.
pub open spec fn exponent_bits(bits: u64) -> u64 {
    (bits >> 52) & 0x7ff
}

/// A binary64 bit pattern stands for a finite number exactly when its
/// exponent bits are not all ones (all ones encodes the infinities and NaN).
pub open spec fn is_finite_bits(bits: u64) -> bool {
    exponent_bits(bits) != 0x7ff
}

/// A point can be indexed when both of its coordinates are finite.
pub open spec fn point_is_finite(lat_bits: u64, lon_bits: u64) -> bool {
    is_finite_bits(lat_bits) && is_finite_bits(lon_bits)
}

/// Tests whether a binary64 bit pattern stands for a finite number.
pub fn coordinate_is_finite(bits: u64) -> (finite: bool)
    ensures
        finite == is_finite_bits(bits),
{
    let exponent: u64 = (bits >> 52) & 0x7ff;
    exponent != 0x7ff
}

/// One point of the index: a coordinate pair and the id stored under it.
#[derive(Clone, Copy, Debug, PartialEq, Eq, Structural)]
pub struct SpatialEntry {
    pub lat_bits: u64,
    pub lon_bits: u64,
    pub id: u64,
}

impl SpatialEntry {
    pub open spec fn is_finite(self) -> bool {
        point_is_finite(self.lat_bits, self.lon_bits)
    }
}

/// Every entry of `entries` has finite coordinates.
pub open spec fn all_entries_finite(entries: Seq<SpatialEntry>) -> bool {
    forall|i: int| 0 <= i < entries.len() ==> (#[trigger] entries[i]).is_finite()
}

/// Why a point was not added to the index.
#[derive(Clone, Copy, Debug, PartialEq, Eq, Structural)]
pub enum IndexError {
    /// A coordinate of the point was an infinity or NaN.
    NonFiniteCoordinate,
}

/// The points of a two-dimensional index, in the order they were inserted.
///
/// Only points with finite coordinates are ever added. A search structure
/// over the same points is rebuilt from this list by inserting the entries
/// in order.
#[derive(Debug)]
pub struct SpatialIndex {
    entries: Vec<SpatialEntry>,
}

impl View for SpatialIndex {
    type V = Seq<SpatialEntry>;

    closed spec fn view(&self) -> Seq<SpatialEntry> {
        self.entries@
    }
}

impl SpatialIndex {
    /// Every point held has finite coordinates. This holds of every index
    /// made by [`SpatialIndex::new`] and grown by [`SpatialIndex::insert`].
    pub open spec fn well_formed(&self) -> bool {
        all_entries_finite(self@)
    }

    /// An index without points.
    pub fn new() -> (index: SpatialIndex)
        ensures
            index@ == Seq::<SpatialEntry>::empty(),
            index.well_formed(),
    {
        SpatialIndex { entries: Vec::new() }
    }

    /// Adds the point `(lat_bits, lon_bits)` with payload `id` after all
    /// points already held. Fails, leaving the index unchanged, exactly when
    /// a coordinate is not finite.
    pub fn insert(&mut self, lat_bits: u64, lon_bits: u64, id: u64) -> (result: Result<
        (),
        IndexError,
    >)
        ensures
            point_is_finite(lat_bits, lon_bits) ==> result.is_ok() && final(self)@ == old(self)@.push(
                SpatialEntry { lat_bits, lon_bits, id },
            ),
            !point_is_finite(lat_bits, lon_bits) ==> result == Err::<(), IndexError>(
                IndexError::NonFiniteCoordinate,
            ) && final(self)@ == old(self)@,
            old(self).well_formed() ==> final(self).well_formed(),
    {
        if coordinate_is_finite(lat_bits) && coordinate_is_finite(lon_bits) {
            self.entries.push(SpatialEntry { lat_bits, lon_bits, id });
            Ok(())
        } else {
            Err(IndexError::NonFiniteCoordinate)
        }
    }

    /// The number of points held.
    pub fn len(&self) -> (n: usize)
        ensures
            n == self@.len(),
    {
        self.entries.len()
    }

    /// The points in insertion order.
    pub fn entries(&self) -> (entries: &Vec<SpatialEntry>)
        ensures
            entries@ == self@,
    {
        &self.entries
    }
}

} // verus!
