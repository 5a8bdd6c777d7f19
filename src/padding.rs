//! The PADDING metadata block's body.

use vstd::prelude::*;

use crate::bytes::zeros;

verus! {

/// Appends `n_bytes` zero bytes to `to`.
pub fn write_padding(to: &mut Vec<u8>, n_bytes: u32)
    ensures
        final(to)@ == old(to)@ + zeros(n_bytes as nat),
{
    let mut i: u32 = 0;
    while i < n_bytes
        invariant
            i <= n_bytes,
            to@ == old(to)@ + zeros(i as nat),
        decreases n_bytes - i,
    {
        to.push(0u8);
        assert(to@ =~= old(to)@ + zeros((i + 1) as nat));
        i = i + 1;
    }
}

} // verus!
