//! The icon record: one filesystem entry's on-screen placement, keyed by its
//! entry name. Coordinates are the raw bit patterns of 32-bit IEEE-754
//! floats, so the core stores and compares them without floating-point
//! arithmetic.

use vstd::prelude::*;

verus! {

/// The mathematical model of one record: a name and the two coordinate bit
/// patterns.
#[verifier::ext_equal]
pub ghost struct RecordView {
    pub name: Seq<char>,
    pub x_bits: u32,
    pub y_bits: u32,
}

/// One entry's placement. `name` is the identity (unique within a registry);
/// `x_bits` / `y_bits` hold `f32::to_bits` of the scene coordinates, with
/// bit pattern 0 being the default position 0.0.
#[derive(Debug, PartialEq, Eq)]
pub struct IconRecord {
    pub name: String,
    pub x_bits: u32,
    pub y_bits: u32,
}

impl View for IconRecord {
    type V = RecordView;

    open spec fn view(&self) -> RecordView {
        RecordView { name: self.name@, x_bits: self.x_bits, y_bits: self.y_bits }
    }
}

impl IconRecord {
    /// An independent copy with the same name and position.
    pub fn duplicate(&self) -> (r: IconRecord)
        ensures
            r@ == self@,
    {
        IconRecord { name: self.name.clone(), x_bits: self.x_bits, y_bits: self.y_bits }
    }
}

/// The models of a sequence of records.
pub open spec fn views_of(rs: Seq<IconRecord>) -> Seq<RecordView> {
    rs.map_values(|r: IconRecord| r@)
}

} // verus!
