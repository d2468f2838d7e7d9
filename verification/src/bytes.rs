//! Byte-vector helpers shared by the channel and the bridge.

use vstd::prelude::*;

verus! {

/// Copy a byte vector element by element.
pub(crate) fn copy_bytes(src: &Vec<u8>) -> (r: Vec<u8>)
    ensures
        r@ == src@,
{
    let mut r: Vec<u8> = Vec::new();
    append_bytes(&mut r, src);
    assert(r@ =~= src@);
    r
}

/// Append the whole of `src` to the back of `dst`.
pub(crate) fn append_bytes(dst: &mut Vec<u8>, src: &Vec<u8>)
    ensures
        final(dst)@ == old(dst)@ + src@,
{
    let mut i: usize = 0;
    while i < src.len()
        invariant
            i <= src.len(),
            dst@ == old(dst)@ + src@.take(i as int),
        decreases src.len() - i,
    {
        dst.push(src[i]);
        assert(old(dst)@ + src@.take(i + 1) =~= (old(dst)@ + src@.take(i as int)).push(
            src@[i as int],
        ));
        i += 1;
    }
    assert(old(dst)@ + src@.take(src@.len() as int) =~= old(dst)@ + src@);
}

} // verus!
