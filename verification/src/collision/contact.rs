//! What a detected overlap is described by.

use crate::tiles::Tile;
use crate::types::Rect;
use vstd::prelude::*;

verus! {

/// One detected overlap: side `a` is the moving entity, side `b` what it
/// ran into, and `mtv` the overlap magnitude on each axis.
#[derive(PartialEq, Eq, Copy, Debug)]
pub struct Contact<A, B> {
    pub a: A,
    pub b: B,
    pub mtv: (i32, i32),
}

/// The tile side of a contact: the tile and the world rectangle of its cell,
/// copied when the contact was gathered.
#[derive(PartialEq, Eq, Structural, Clone, Copy, Debug)]
pub struct TileContact {
    pub tile: Tile,
    pub rect: Rect,
}

impl<A: Clone, B: Clone> Clone for Contact<A, B> {
    fn clone(&self) -> Self {
        Contact { a: self.a.clone(), b: self.b.clone(), mtv: self.mtv }
    }
}

/// How severe an overlap is: the squared length of its magnitudes.
pub open spec fn severity(mtv: (i32, i32)) -> int {
    mtv.0 * mtv.0 + mtv.1 * mtv.1
}

/// Whether every contact names an entity below `count`.
pub open spec fn entities_known<B>(contacts: Seq<Contact<usize, B>>, count: nat) -> bool {
    forall|k: int| 0 <= k < contacts.len() ==> (#[trigger] contacts[k]).a < count
}

} // verus!
