use vstd::prelude::*;

verus! {

/// A quantized 2D point of the nav plane.
pub type QuantizedPoint = (i64, i64);

/// An undirected quantized edge: its two endpoints, the smaller one first.
pub type EdgeKey = (QuantizedPoint, QuantizedPoint);

/// Edge keys are ordered by the lawful total order of integer tuples, so ordered maps over
/// them behave as mathematical maps.
pub open spec fn edge_keys_totally_ordered() -> bool {
    vstd::laws_cmp::obeys_cmp::<EdgeKey>()
}

pub proof fn lemma_edge_keys_totally_ordered()
    ensures
        edge_keys_totally_ordered(),
{
    broadcast use vstd::laws_cmp::group_laws_cmp;

}

} // verus!
