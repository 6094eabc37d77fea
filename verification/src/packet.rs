//! A fixed-size raw packet staging area, used by shells that read whole
//! frames from the tunnel before handing them to the stack.

use vstd::prelude::*;

verus! {

/// One raw frame: 2048 octets of storage, with the valid span described
/// by `offset` and `length`.
pub struct NetworkPacket {
    pub data: [u8; 2048],
    pub length: u32,
    pub offset: u32,
}

/// A zero-filled packet with an empty span.
pub fn alloc_packet() -> (r: NetworkPacket)
    ensures
        r.length == 0,
        r.offset == 0,
        r.data@ == Seq::new(2048, |i: int| 0u8),
{
    let r = NetworkPacket { data: [0; 2048], length: 0, offset: 0 };
    proof {
        broadcast use vstd::array::group_array_axioms;

        assert(r.data@ =~= Seq::new(2048, |i: int| 0u8));
    }
    r
}

} // verus!
