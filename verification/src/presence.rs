//! The data carried for each live member: a position on the canvas and
//! an assigned color, together with the identifier of the owning
//! connection.

use vstd::prelude::*;

verus! {

/// A point on the shared canvas.
///
/// The engine never interprets the coordinates: they are carried as the
/// bit patterns of the two numbers a client sent and handed back out
/// unchanged. The transport layer converts between wire numbers and
/// these bit patterns at the boundary.
#[derive(Clone, Copy, Debug, PartialEq, Eq, Structural)]
pub struct Position {
    pub x: u64,
    pub y: u64,
}

/// The visual state broadcast for one live member: the owning
/// connection's identifier, the current position (absent until the first
/// update), and the color assigned once at creation.
#[derive(Debug)]
pub struct HumanData {
    pub id: u64,
    pub position: Option<Position>,
    pub color: String,
}

/// The mathematical value of a [`HumanData`] record.
pub struct RecordView {
    pub id: u64,
    pub position: Option<Position>,
    pub color: Seq<char>,
}

impl View for HumanData {
    type V = RecordView;

    open spec fn view(&self) -> RecordView {
        RecordView { id: self.id, position: self.position, color: self.color@ }
    }
}

impl HumanData {
    /// An exact copy of the record, used to hand records out without
    /// giving up the stored one.
    pub fn duplicate(&self) -> (r: HumanData)
        ensures
            r@ == self@,
    {
        HumanData { id: self.id, position: self.position, color: self.color.clone() }
    }
}

} // verus!
