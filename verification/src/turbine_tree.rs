//! The two-level fan-out tree over an ordered list of nodes.
//!
//! With fan-out `F`, the list is cut into neighborhoods of `F` consecutive
//! positions. The node at position `i` sits at offset `i % F` of
//! neighborhood `i / F` and owns the `F` consecutive positions that start at
//! `F * F * (i / F) + F * (i % F + 1)`.

use vstd::prelude::*;

verus! {

/// The smaller of two numbers.
pub open spec fn at_most(a: int, b: int) -> int {
    if a <= b {
        a
    } else {
        b
    }
}

/// Where the neighborhood of position `index` starts.
pub open spec fn neighborhood_start(fanout: int, index: int) -> int {
    fanout * (index / fanout)
}

/// Where the positions that position `index` owns start.
pub open spec fn children_start(fanout: int, index: int) -> int {
    fanout * fanout * (index / fanout) + fanout * (index % fanout + 1)
}

/// The part of `nodes` from `start` on, at most `fanout` long.
pub open spec fn window<T>(nodes: Seq<T>, start: int, fanout: int) -> Seq<T> {
    nodes.subrange(
        at_most(start, nodes.len() as int),
        at_most(start + fanout, nodes.len() as int),
    )
}

/// The neighborhood of position `index`: what of its `fanout` positions
/// lies within `nodes`.
pub open spec fn neighbors_of<T>(fanout: int, index: int, nodes: Seq<T>) -> Seq<T> {
    window(nodes, neighborhood_start(fanout, index), fanout)
}

/// The children of position `index`: what of the `fanout` positions that it
/// owns lies within `nodes`.
pub open spec fn children_of<T>(fanout: int, index: int, nodes: Seq<T>) -> Seq<T> {
    window(nodes, children_start(fanout, index), fanout)
}

/// The positions that a node owns start at `fanout * (index + 1)`.
pub proof fn lemma_children_start(fanout: int, index: int)
    requires
        fanout > 0,
        index >= 0,
    ensures
        children_start(fanout, index) == fanout * (index + 1),
        neighborhood_start(fanout, index) == index - index % fanout,
        0 <= index % fanout < fanout,
{
    let g = index / fanout;
    let j = index % fanout;
    assert(index == fanout * g + j) by (nonlinear_arith)
        requires
            fanout > 0,
            g == index / fanout,
            j == index % fanout,
    ;
    assert(0 <= j < fanout) by (nonlinear_arith)
        requires
            fanout > 0,
            j == index % fanout,
    ;
    assert(fanout * fanout * g + fanout * (j + 1) == fanout * (fanout * g + j + 1))
        by (nonlinear_arith);
}

/// A node is in its own neighborhood, at offset `index % fanout`.
pub proof fn lemma_self_in_neighborhood<T>(fanout: int, index: int, nodes: Seq<T>)
    requires
        fanout > 0,
        0 <= index < nodes.len(),
    ensures
        index % fanout < neighbors_of(fanout, index, nodes).len(),
        neighbors_of(fanout, index, nodes)[index % fanout] == nodes[index],
        neighbors_of(fanout, index, nodes).len() <= fanout,
        children_of(fanout, index, nodes).len() <= fanout,
{
    lemma_children_start(fanout, index);
}

/// No node is its own child, and no child lies in the parent's neighborhood:
/// the positions a node owns come after its neighborhood.
pub proof fn lemma_children_follow_neighborhood(fanout: int, index: int)
    requires
        fanout > 0,
        index >= 0,
    ensures
        children_start(fanout, index) >= neighborhood_start(fanout, index) + fanout,
{
    lemma_children_start(fanout, index);
    assert(fanout * (index + 1) >= index + 1) by (nonlinear_arith)
        requires
            fanout > 0,
            index >= 0,
    ;
    assert(fanout * (index + 1) == fanout * index + fanout) by (nonlinear_arith);
    assert(fanout * index >= index) by (nonlinear_arith)
        requires
            fanout > 0,
            index >= 0,
    ;
}

/// Copies out of `nodes` what lies in `[start, start + fanout)`.
fn copy_window<T: Copy>(nodes: &Vec<T>, start: usize, fanout: usize) -> (out: Vec<T>)
    ensures
        out@ == window(nodes@, start as int, fanout as int),
{
    let len: usize = nodes.len();
    let begin: usize = if start < len {
        start
    } else {
        len
    };
    let end: usize = if fanout < len - begin {
        begin + fanout
    } else {
        len
    };
    let mut out: Vec<T> = Vec::with_capacity(end - begin);
    let mut i: usize = begin;
    while i < end
        invariant
            begin <= i <= end <= len,
            len == nodes@.len(),
            out@ == nodes@.subrange(begin as int, i as int),
        decreases end - i,
    {
        out.push(nodes[i]);
        assert(nodes@.subrange(begin as int, i + 1) == nodes@.subrange(begin as int, i as int).push(
            nodes@[i as int],
        ));
        i = i + 1;
    }
    out
}

/// The neighbors and the children of the node at position `index`.
///
/// `neighbors` is the node's neighborhood, the node itself included at
/// offset `index % fanout`; `children` are the nodes at the positions it
/// owns. Both are cut off where `nodes` ends. The fan-out must not be zero.
pub fn compute_retransmit_peers<T: Copy>(fanout: usize, index: usize, nodes: &Vec<T>) -> (peers: (
    Vec<T>,
    Vec<T>,
))
    requires
        fanout > 0,
    ensures
        peers.0@ == neighbors_of(fanout as int, index as int, nodes@),
        peers.1@ == children_of(fanout as int, index as int, nodes@),
{
    proof {
        lemma_children_start(fanout as int, index as int);
    }
    let offset: usize = index % fanout;
    let anchor: usize = index - offset;
    let neighbors = copy_window(nodes, anchor, fanout);
    let len: usize = nodes.len();
    // Past the end of the list a position owns nothing, whatever its number.
    let first_child: usize = if index < len {
        match fanout.checked_mul(index + 1) {
            Some(start) => start,
            None => {
                proof {
                    assert(fanout * (index + 1) >= len) by (nonlinear_arith)
                        requires
                            fanout * (index + 1) > usize::MAX,
                            len <= usize::MAX,
                    ;
                }
                len
            },
        }
    } else {
        proof {
            assert(fanout * (index + 1) >= len) by (nonlinear_arith)
                requires
                    fanout > 0,
                    index >= len,
            ;
        }
        len
    };
    let children = copy_window(nodes, first_child, fanout);
    (neighbors, children)
}

} // verus!
