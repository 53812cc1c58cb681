//! NID (Node ID): a 32-bit identifier whose low 5 bits select a node type
//! and whose upper 27 bits are an index.

use vstd::prelude::*;

verus! {

/// A 32-bit node identifier, stored little-endian on disk.
#[derive(Clone, Copy, Debug, Default, PartialEq, Eq, Structural)]
pub struct NodeId(pub u32);

impl NodeId {
    /// The raw 32-bit value, as stored on disk.
    pub open spec fn raw_spec(&self) -> u32 {
        self.0
    }

    /// The node-type tag in the low 5 bits.
    pub open spec fn id_type_spec(&self) -> u32 {
        self.raw_spec() & 0x1F
    }

    /// The index in the upper 27 bits.
    pub open spec fn index_spec(&self) -> u32 {
        self.raw_spec() >> 5
    }

    pub fn from_raw(value: u32) -> (r: Self)
        ensures
            r.raw_spec() == value,
    {
        NodeId(value)
    }

    pub fn raw(&self) -> (r: u32)
        ensures
            r == self.raw_spec(),
    {
        self.0
    }

    pub fn id_type(&self) -> (r: u32)
        ensures
            r == self.id_type_spec(),
    {
        self.0 & 0x1F
    }

    pub fn index(&self) -> (r: u32)
        ensures
            r == self.index_spec(),
    {
        self.0 >> 5
    }
}

} // verus!
