//! The network subsystem's operations for a build whose network symbol
//! is inactive: when the `CONFIG_NET` capability is off, a workspace
//! crate compiles against these pure bodies instead of a transport.
//! Sending accepts and drops the data; receiving yields nothing.

use vstd::prelude::*;

verus! {

/// Accepts outgoing data.  With the network symbol inactive there is no
/// transport, so the data is dropped whole.
pub fn send_data(data: &[u8]) {
    let _ = data;
}

/// Yields incoming data.  With the network symbol inactive there is no
/// transport, so the result is always empty.
pub fn receive_data() -> (r: Vec<u8>)
    ensures
        r@ == Seq::<u8>::empty(),
{
    let r: Vec<u8> = Vec::new();
    r
}

} // verus!
