//! Joining the leaves of one file into one stream of bytes.

use vstd::prelude::*;
use crate::adapters::AdaptInfo;

verus! {

/// The bytes of the leaves, one leaf after the other.
pub open spec fn concatenated(leaves: Seq<AdaptInfo>) -> Seq<u8>
    decreases leaves.len(),
{
    if leaves.len() == 0 {
        Seq::empty()
    } else {
        concatenated(leaves.drop_last()) + leaves.last().inp@
    }
}

/// Joins the bytes of the leaves in their order.
pub fn concat_read_streams(leaves: &Vec<AdaptInfo>) -> (out: Vec<u8>)
    ensures
        out@ == concatenated(leaves@),
{
    let mut out: Vec<u8> = Vec::new();
    let mut i: usize = 0;
    assert(leaves@.take(0) =~= Seq::<AdaptInfo>::empty());
    while i < leaves.len()
        invariant
            i <= leaves.len(),
            out@ == concatenated(leaves@.take(i as int)),
        decreases leaves.len() - i,
    {
        let ghost before = out@;
        out.extend_from_slice(leaves[i].inp.as_slice());
        proof {
            assert(leaves@.take(i + 1).drop_last() =~= leaves@.take(i as int));
            assert(leaves@.take(i + 1).last() == leaves@[i as int]);
            assert(out@ =~= before + leaves@[i as int].inp@);
        }
        i += 1;
    }
    assert(leaves@.take(leaves.len() as int) =~= leaves@);
    out
}

} // verus!
