//! Laws of the spatial tree: how ancestry behaves, what adding a node does to
//! it, and which nodes an update visits.

use vstd::prelude::*;

use crate::clip_scroll_tree::{
    appended_node, children_order, index_of, is_same_or_descendant, nearest_scrolling_ancestor_of,
    path_is_identity,
    node_external_scroll_id, scroll_states_of, scrolls_on_input, subtree_order, well_formed_nodes,
    finalize_plan, first_value_from, represents, value_for, system_index, system_reaches,
    transform_steps, CoordinateSystem, CoordinateSystemId, action_node, frame_actions,
    scroll_node_states, with_scroll_offset, ScrollAction, ScrollNodeState,
    SpatialNode, SpatialNodeIndex, SpatialNodeType, TOPMOST_SCROLL_NODE_INDEX,
    first_node_with_id, ScrollFrameKind, SourceTransform, ROOT_SPATIAL_NODE_INDEX,
};
use crate::display_item::ScrollSensitivity;
use crate::ids::{ExternalScrollId, PipelineId};

verus! {

broadcast use {
    vstd::seq_lib::lemma_seq_concat_contains_all_elements,
    vstd::seq_lib::lemma_seq_contains,
};

/// A node lies at or below another only if its index is not smaller.
pub proof fn lemma_descendant_not_before<O>(nodes: Seq<SpatialNode<O>>, i: int, p: int)
    requires
        is_same_or_descendant(nodes, i, p),
    ensures
        p <= i,
    decreases i,
{
    if i != p {
        let q = index_of(nodes[i].parent.unwrap());
        lemma_descendant_not_before(nodes, q, p);
    }
}

/// Lying at or below is transitive.
pub proof fn lemma_descendant_transitive<O>(nodes: Seq<SpatialNode<O>>, i: int, m: int, p: int)
    requires
        is_same_or_descendant(nodes, i, m),
        is_same_or_descendant(nodes, m, p),
    ensures
        is_same_or_descendant(nodes, i, p),
    decreases i,
{
    if i != m {
        let q = index_of(nodes[i].parent.unwrap());
        lemma_descendant_transitive(nodes, q, m, p);
    }
}

/// The nodes at or above a node form a chain: of two of them, one lies at or
/// below the other.
pub proof fn lemma_ancestors_form_chain<O>(nodes: Seq<SpatialNode<O>>, i: int, a: int, b: int)
    requires
        is_same_or_descendant(nodes, i, a),
        is_same_or_descendant(nodes, i, b),
    ensures
        is_same_or_descendant(nodes, a, b) || is_same_or_descendant(nodes, b, a),
    decreases i,
{
    if i != a && i != b {
        let q = index_of(nodes[i].parent.unwrap());
        lemma_ancestors_form_chain(nodes, q, a, b);
    }
}

/// A child lies below its parent.
proof fn lemma_child_below_parent<O>(nodes: Seq<SpatialNode<O>>, i: int, k: int)
    requires
        well_formed_nodes(nodes),
        0 <= i < nodes.len(),
        0 <= k < nodes[i].children@.len(),
    ensures
        is_same_or_descendant(nodes, index_of(nodes[i].children@[k]), i),
{
    let c = index_of(nodes[i].children@[k]);
    assert(nodes[c].parent == Some(SpatialNodeIndex(i as u32)));
    assert(is_same_or_descendant(nodes, i, i));
}

/// A node strictly below `p` lies at or below a child of `p`.
proof fn lemma_below_some_child<O>(nodes: Seq<SpatialNode<O>>, j: int, p: int)
    requires
        well_formed_nodes(nodes),
        is_same_or_descendant(nodes, j, p),
        j != p,
    ensures
        exists|k: int|
            0 <= k < nodes[p].children@.len() && is_same_or_descendant(
                nodes,
                j,
                #[trigger] index_of(nodes[p].children@[k]),
            ),
    decreases j,
{
    lemma_descendant_not_before(nodes, j, p);
    let q = index_of(nodes[j].parent.unwrap());
    if q == p {
        let pc = nodes[p].children@;
        assert(pc.contains(SpatialNodeIndex(j as u32)));
        let k = choose|k: int| 0 <= k < pc.len() && pc[k] == SpatialNodeIndex(j as u32);
        assert(index_of(pc[k]) == j);
        assert(is_same_or_descendant(nodes, j, index_of(pc[k])));
    } else {
        lemma_below_some_child(nodes, q, p);
        let k = choose|k: int|
            0 <= k < nodes[p].children@.len() && is_same_or_descendant(
                nodes,
                q,
                #[trigger] index_of(nodes[p].children@[k]),
            );
        assert(0 <= j < nodes.len());
        assert(0 <= q < j);
        assert(is_same_or_descendant(nodes, q, q));
        assert(is_same_or_descendant(nodes, j, q));
        lemma_descendant_transitive(nodes, j, q, index_of(nodes[p].children@[k]));
    }
}

/// Every node that an update of the subtree of `i` visits lies at or below `i`.
proof fn lemma_subtree_order_sound<O>(nodes: Seq<SpatialNode<O>>, i: int)
    requires
        well_formed_nodes(nodes),
    ensures
        forall|x: SpatialNodeIndex|
            #[trigger] subtree_order(nodes, i).contains(x) ==> i <= index_of(x) < nodes.len()
                && is_same_or_descendant(nodes, index_of(x), i),
    decreases nodes.len() - i, 1int, 0int,
{
    if 0 <= i < nodes.len() {
        let n = nodes[i].children@.len() as int;
        lemma_children_order_sound(nodes, i, n);
        assert forall|x: SpatialNodeIndex| #[trigger]
            subtree_order(nodes, i).contains(x) implies i <= index_of(x) < nodes.len()
            && is_same_or_descendant(nodes, index_of(x), i) by {
            if x == SpatialNodeIndex(i as u32) {
            } else {
                assert(children_order(nodes, i, n).contains(x));
                let k = choose|k: int|
                    0 <= k < n && is_same_or_descendant(
                        nodes,
                        index_of(x),
                        #[trigger] index_of(nodes[i].children@[k]),
                    );
                lemma_child_below_parent(nodes, i, k);
                lemma_descendant_transitive(nodes, index_of(x), index_of(nodes[i].children@[k]), i);
            }
        }
    }
}

/// Every node that the updates of the first `k` children of `i` visit lies
/// at or below one of those children.
proof fn lemma_children_order_sound<O>(nodes: Seq<SpatialNode<O>>, i: int, k: int)
    requires
        well_formed_nodes(nodes),
    ensures
        forall|x: SpatialNodeIndex|
            #[trigger] children_order(nodes, i, k).contains(x) ==> i < index_of(x) < nodes.len()
                && exists|k2: int|
                0 <= k2 < k && is_same_or_descendant(
                    nodes,
                    index_of(x),
                    #[trigger] index_of(nodes[i].children@[k2]),
                ),
    decreases nodes.len() - i, 0int, k,
{
    if k <= 0 || !(0 <= i < nodes.len()) || k > nodes[i].children@.len() {
    } else {
        let c = index_of(nodes[i].children@[k - 1]);
        lemma_children_order_sound(nodes, i, k - 1);
        lemma_subtree_order_sound(nodes, c);
        assert forall|x: SpatialNodeIndex| #[trigger]
            children_order(nodes, i, k).contains(x) implies i < index_of(x) < nodes.len()
            && exists|k2: int|
            0 <= k2 < k && is_same_or_descendant(
                nodes,
                index_of(x),
                #[trigger] index_of(nodes[i].children@[k2]),
            ) by {
            if children_order(nodes, i, k - 1).contains(x) {
                let k2 = choose|k2: int|
                    0 <= k2 < k - 1 && is_same_or_descendant(
                        nodes,
                        index_of(x),
                        #[trigger] index_of(nodes[i].children@[k2]),
                    );
                assert(0 <= k2 < k);
            } else {
                assert(subtree_order(nodes, c).contains(x));
                lemma_descendant_not_before(nodes, index_of(x), c);
                assert(is_same_or_descendant(nodes, index_of(x), index_of(nodes[i].children@[k - 1])));
            }
        }
    }
}

/// The updates of the first `k` children of `i` visit the whole subtree of
/// each of them.
proof fn lemma_children_order_covers<O>(nodes: Seq<SpatialNode<O>>, i: int, k: int, k2: int, x: SpatialNodeIndex)
    requires
        well_formed_nodes(nodes),
        0 <= i < nodes.len(),
        0 <= k2 < k <= nodes[i].children@.len(),
        subtree_order(nodes, index_of(nodes[i].children@[k2])).contains(x),
    ensures
        children_order(nodes, i, k).contains(x),
    decreases k,
{
    if k2 < k - 1 {
        lemma_children_order_covers(nodes, i, k - 1, k2, x);
    }
}

/// An update of the subtree of `i` visits every node at or below `i`.
proof fn lemma_subtree_order_complete<O>(nodes: Seq<SpatialNode<O>>, i: int, j: int)
    requires
        well_formed_nodes(nodes),
        0 <= i < nodes.len(),
        0 <= j < nodes.len(),
        is_same_or_descendant(nodes, j, i),
    ensures
        subtree_order(nodes, i).contains(SpatialNodeIndex(j as u32)),
    decreases nodes.len() - i,
{
    if j == i {
        assert(subtree_order(nodes, i)[0] == SpatialNodeIndex(j as u32));
    } else {
        lemma_below_some_child(nodes, j, i);
        let k = choose|k: int|
            0 <= k < nodes[i].children@.len() && is_same_or_descendant(
                nodes,
                j,
                #[trigger] index_of(nodes[i].children@[k]),
            );
        let c = index_of(nodes[i].children@[k]);
        lemma_subtree_order_complete(nodes, c, j);
        lemma_children_order_covers(nodes, i, nodes[i].children@.len() as int, k, SpatialNodeIndex(j as u32));
        assert(subtree_order(nodes, i) == seq![SpatialNodeIndex(i as u32)] + children_order(
            nodes,
            i,
            nodes[i].children@.len() as int,
        ));
    }
}

/// An update of the subtree of `i` visits no node twice.
proof fn lemma_subtree_order_no_duplicates<O>(nodes: Seq<SpatialNode<O>>, i: int)
    requires
        well_formed_nodes(nodes),
    ensures
        subtree_order(nodes, i).no_duplicates(),
    decreases nodes.len() - i, 1int, 0int,
{
    if 0 <= i < nodes.len() {
        let n = nodes[i].children@.len() as int;
        let head = seq![SpatialNodeIndex(i as u32)];
        let rest = children_order(nodes, i, n);
        lemma_children_order_no_duplicates(nodes, i, n);
        lemma_children_order_sound(nodes, i, n);
        assert forall|a: int, b: int| 0 <= a < head.len() && 0 <= b < rest.len() implies head[a]
            != rest[b] by {
            assert(rest.contains(rest[b]));
        }
        vstd::seq_lib::lemma_no_dup_in_concat(head, rest);
    }
}

/// The updates of the first `k` children of `i` visit no node twice.
proof fn lemma_children_order_no_duplicates<O>(nodes: Seq<SpatialNode<O>>, i: int, k: int)
    requires
        well_formed_nodes(nodes),
    ensures
        children_order(nodes, i, k).no_duplicates(),
    decreases nodes.len() - i, 0int, k,
{
    if k <= 0 || !(0 <= i < nodes.len()) || k > nodes[i].children@.len() {
    } else {
        let c = index_of(nodes[i].children@[k - 1]);
        let front = children_order(nodes, i, k - 1);
        let back = subtree_order(nodes, c);
        lemma_children_order_no_duplicates(nodes, i, k - 1);
        lemma_subtree_order_no_duplicates(nodes, c);
        lemma_children_order_sound(nodes, i, k - 1);
        lemma_subtree_order_sound(nodes, c);
        assert forall|a: int, b: int| 0 <= a < front.len() && 0 <= b < back.len() implies front[a]
            != back[b] by {
            let x = front[a];
            assert(front.contains(x));
            if x == back[b] {
                assert(back.contains(x));
                let k2 = choose|k2: int|
                    0 <= k2 < k - 1 && is_same_or_descendant(
                        nodes,
                        index_of(x),
                        #[trigger] index_of(nodes[i].children@[k2]),
                    );
                let c2 = index_of(nodes[i].children@[k2]);
                assert(c2 < c);
                lemma_ancestors_form_chain(nodes, index_of(x), c2, c);
                lemma_child_below_parent(nodes, i, k2);
                lemma_child_below_parent(nodes, i, k - 1);
                if is_same_or_descendant(nodes, c2, c) {
                    lemma_descendant_not_before(nodes, c2, c);
                } else {
                    // c lies below c2 and differs from it, so c's parent `i`
                    // lies at or below c2, which comes after `i`.
                    assert(nodes[c].parent == Some(SpatialNodeIndex(i as u32)));
                    assert(is_same_or_descendant(nodes, i, c2));
                    lemma_descendant_not_before(nodes, i, c2);
                }
            }
        }
        vstd::seq_lib::lemma_no_dup_in_concat(front, back);
    }
}

/// The update order of a subtree lists each node at or below its root exactly
/// once, and nothing else.
pub proof fn lemma_update_order_visits_subtree_once<O>(nodes: Seq<SpatialNode<O>>, i: int)
    requires
        well_formed_nodes(nodes),
        0 <= i < nodes.len(),
    ensures
        subtree_order(nodes, i).no_duplicates(),
        forall|x: SpatialNodeIndex|
            #[trigger] subtree_order(nodes, i).contains(x) ==> index_of(x) < nodes.len()
                && is_same_or_descendant(nodes, index_of(x), i),
        forall|j: int|
            0 <= j < nodes.len() && #[trigger] is_same_or_descendant(nodes, j, i)
                ==> subtree_order(nodes, i).contains(SpatialNodeIndex(j as u32)),
{
    lemma_subtree_order_no_duplicates(nodes, i);
    lemma_subtree_order_sound(nodes, i);
    assert forall|j: int|
        0 <= j < nodes.len() && #[trigger] is_same_or_descendant(nodes, j, i) implies subtree_order(
        nodes,
        i,
    ).contains(SpatialNodeIndex(j as u32)) by {
        lemma_subtree_order_complete(nodes, i, j);
    }
}

/// In the update order of a subtree, every node but the first comes after its
/// parent.
proof fn lemma_subtree_order_parent_first<O>(nodes: Seq<SpatialNode<O>>, i: int)
    requires
        well_formed_nodes(nodes),
    ensures
        ({
            let order = subtree_order(nodes, i);
            forall|a: int|
                #![trigger order[a]]
                0 < a < order.len() ==> exists|b: int|
                    0 <= b < a && nodes[index_of(order[a])].parent == Some(#[trigger] order[b])
        }),
    decreases nodes.len() - i, 1int, 0int,
{
    if 0 <= i < nodes.len() {
        let n = nodes[i].children@.len() as int;
        let head = seq![SpatialNodeIndex(i as u32)];
        let rest = children_order(nodes, i, n);
        let order = subtree_order(nodes, i);
        assert(order == head + rest);
        lemma_children_order_parent_first(nodes, i, n);
        assert forall|a: int|
            #![trigger order[a]]
            0 < a < order.len() implies exists|b: int|
                0 <= b < a && nodes[index_of(order[a])].parent == Some(#[trigger] order[b]) by {
            assert(order[a] == rest[a - 1]);
            if nodes[index_of(rest[a - 1])].parent == Some(SpatialNodeIndex(i as u32)) {
                assert(order[0] == SpatialNodeIndex(i as u32));
            } else {
                let b = choose|b: int|
                    0 <= b < a - 1 && nodes[index_of(rest[a - 1])].parent == Some(
                        #[trigger] rest[b],
                    );
                assert(order[b + 1] == rest[b]);
            }
        }
    }
}

/// In the update order of the first `k` children of `i`, every node is a
/// child of `i` or comes after its parent.
proof fn lemma_children_order_parent_first<O>(nodes: Seq<SpatialNode<O>>, i: int, k: int)
    requires
        well_formed_nodes(nodes),
    ensures
        ({
            let order = children_order(nodes, i, k);
            forall|a: int|
                #![trigger order[a]]
                0 <= a < order.len() ==> nodes[index_of(order[a])].parent == Some(
                    SpatialNodeIndex(i as u32),
                ) || exists|b: int|
                    0 <= b < a && nodes[index_of(order[a])].parent == Some(#[trigger] order[b])
        }),
    decreases nodes.len() - i, 0int, k,
{
    if k <= 0 || !(0 <= i < nodes.len()) || k > nodes[i].children@.len() {
    } else {
        let c = index_of(nodes[i].children@[k - 1]);
        let front = children_order(nodes, i, k - 1);
        let back = subtree_order(nodes, c);
        let order = children_order(nodes, i, k);
        assert(order == front + back);
        lemma_children_order_parent_first(nodes, i, k - 1);
        lemma_subtree_order_parent_first(nodes, c);
        let l = front.len() as int;
        assert forall|a: int|
            #![trigger order[a]]
            0 <= a < order.len() implies nodes[index_of(order[a])].parent == Some(
                SpatialNodeIndex(i as u32),
            ) || exists|b: int|
                0 <= b < a && nodes[index_of(order[a])].parent == Some(#[trigger] order[b]) by {
            if a < l {
                assert(order[a] == front[a]);
                if nodes[index_of(front[a])].parent != Some(SpatialNodeIndex(i as u32)) {
                    let b = choose|b: int|
                        0 <= b < a && nodes[index_of(front[a])].parent == Some(
                            #[trigger] front[b],
                        );
                    assert(order[b] == front[b]);
                }
            } else {
                assert(order[a] == back[a - l]);
                if a == l {
                    assert(back[0] == SpatialNodeIndex(c as u32));
                    assert(nodes[c].parent == Some(SpatialNodeIndex(i as u32)));
                } else {
                    let b = choose|b: int|
                        0 <= b < a - l && nodes[index_of(back[a - l])].parent == Some(
                            #[trigger] back[b],
                        );
                    assert(order[l + b] == back[b]);
                }
            }
        }
    }
}

/// In the update order of a subtree, every node but its root comes after its
/// parent, so a node is updated only once its parent has been.
pub proof fn lemma_update_order_parent_first<O>(nodes: Seq<SpatialNode<O>>, i: int)
    requires
        well_formed_nodes(nodes),
        0 <= i < nodes.len(),
    ensures
        subtree_order(nodes, i).len() > 0,
        subtree_order(nodes, i)[0] == SpatialNodeIndex(i as u32),
        forall|a: int|
            #![trigger subtree_order(nodes, i)[a]]
            0 < a < subtree_order(nodes, i).len() ==> exists|b: int|
                0 <= b < a && nodes[index_of(subtree_order(nodes, i)[a])].parent == Some(
                    #[trigger] subtree_order(nodes, i)[b],
                ),
{
    lemma_subtree_order_parent_first(nodes, i);
    let order = subtree_order(nodes, i);
    assert forall|a: int|
        #![trigger order[a]]
        0 < a < order.len() implies exists|b: int|
            0 <= b < a && nodes[index_of(order[a])].parent == Some(#[trigger] order[b]) by {
        let b = choose|b: int| 0 <= b < a && nodes[index_of(order[a])].parent == Some(#[trigger] order[b]);
        assert(nodes[index_of(order[a])].parent == Some(order[b]));
    }
}

/// Adding a node leaves the ancestry of the nodes already there unchanged.
pub proof fn lemma_append_keeps_ancestry<O>(
    old_nodes: Seq<SpatialNode<O>>,
    new_nodes: Seq<SpatialNode<O>>,
    node: SpatialNode<O>,
    i: int,
    p: int,
)
    requires
        appended_node(old_nodes, new_nodes, node),
        0 <= i < old_nodes.len(),
    ensures
        is_same_or_descendant(new_nodes, i, p) == is_same_or_descendant(old_nodes, i, p),
    decreases i,
{
    assert(new_nodes[i].parent == old_nodes[i].parent);
    if i != p {
        if let Some(q) = old_nodes[i].parent {
            if 0 <= index_of(q) < i {
                lemma_append_keeps_ancestry(old_nodes, new_nodes, node, index_of(q), p);
            }
        }
    }
}

/// A node added under a parent lies below that parent and below everything
/// that the parent lies below.
pub proof fn lemma_appended_node_below_ancestors<O>(
    old_nodes: Seq<SpatialNode<O>>,
    new_nodes: Seq<SpatialNode<O>>,
    node: SpatialNode<O>,
    p: int,
)
    requires
        appended_node(old_nodes, new_nodes, node),
        node.parent matches Some(q) && index_of(q) < old_nodes.len() && is_same_or_descendant(
            old_nodes,
            index_of(q),
            p,
        ),
    ensures
        is_same_or_descendant(new_nodes, old_nodes.len() as int, p),
{
    let q = index_of(node.parent.unwrap());
    lemma_append_keeps_ancestry(old_nodes, new_nodes, node, q, p);
    if p != old_nodes.len() {
        assert(new_nodes[old_nodes.len() as int].parent == node.parent);
    }
}

/// The scrolling ancestor found from a node is the nearest one: if some node
/// at or above it is a scroll frame that input events scroll, of any frame
/// kind, the one found is such a node, lies at or above the start, and lies at
/// or below every other such node; if none is, the topmost scroll node is
/// found.
pub proof fn lemma_nearest_scrolling_ancestor<O>(nodes: Seq<SpatialNode<O>>, i: int)
    requires
        well_formed_nodes(nodes),
        0 <= i < nodes.len(),
    ensures
        ({
            let r = nearest_scrolling_ancestor_of(nodes, i);
            &&& (exists|a: int|
                0 <= a < nodes.len() && #[trigger] is_same_or_descendant(nodes, i, a)
                    && (match nodes[a].node_type {
                SpatialNodeType::ScrollFrame(info) => info.scroll_sensitivity
                    == ScrollSensitivity::ScriptAndInputEvents,
                _ => false,
            })) ==> {
                &&& 0 <= r < nodes.len()
                &&& (match nodes[r].node_type {
                SpatialNodeType::ScrollFrame(info) => info.scroll_sensitivity
                    == ScrollSensitivity::ScriptAndInputEvents,
                _ => false,
            })
                &&& is_same_or_descendant(nodes, i, r)
                &&& forall|a: int|
                    0 <= a < nodes.len() && #[trigger] is_same_or_descendant(nodes, i, a)
                        && (match nodes[a].node_type {
                SpatialNodeType::ScrollFrame(info) => info.scroll_sensitivity
                    == ScrollSensitivity::ScriptAndInputEvents,
                _ => false,
            }) ==> is_same_or_descendant(nodes, r, a)
            }
            &&& !(exists|a: int|
                0 <= a < nodes.len() && #[trigger] is_same_or_descendant(nodes, i, a)
                    && (match nodes[a].node_type {
                SpatialNodeType::ScrollFrame(info) => info.scroll_sensitivity
                    == ScrollSensitivity::ScriptAndInputEvents,
                _ => false,
            })) ==> r == TOPMOST_SCROLL_NODE_INDEX as int
        }),
    decreases i,
{
    let r = nearest_scrolling_ancestor_of(nodes, i);
    if scrolls_on_input(nodes[i]) {
        assert(is_same_or_descendant(nodes, i, i));
        assert forall|a: int|
            0 <= a < nodes.len() && #[trigger] is_same_or_descendant(nodes, i, a) && scrolls_on_input(
                nodes[a],
            ) implies is_same_or_descendant(nodes, r, a) by {}
    } else {
        match nodes[i].parent {
            Some(qi) => {
                let q = index_of(qi);
                assert(0 <= q < i);
                assert(is_same_or_descendant(nodes, q, q));
                assert(is_same_or_descendant(nodes, i, q));
                lemma_nearest_scrolling_ancestor(nodes, q);
                assert forall|a: int|
                    0 <= a < nodes.len() && #[trigger] is_same_or_descendant(nodes, i, a)
                        implies a == i || is_same_or_descendant(nodes, q, a) by {}
                assert forall|a: int|
                    0 <= a < nodes.len() && #[trigger] is_same_or_descendant(nodes, q, a)
                        implies is_same_or_descendant(nodes, i, a) by {
                    assert(is_same_or_descendant(nodes, i, q));
                    lemma_descendant_transitive(nodes, i, q, a);
                }
                if r != TOPMOST_SCROLL_NODE_INDEX as int || exists|a: int|
                    0 <= a < nodes.len() && #[trigger] is_same_or_descendant(nodes, q, a)
                        && scrolls_on_input(nodes[a]) {
                    if exists|a: int|
                        0 <= a < nodes.len() && #[trigger] is_same_or_descendant(nodes, q, a)
                            && scrolls_on_input(nodes[a]) {
                        assert(is_same_or_descendant(nodes, i, q));
                        lemma_descendant_transitive(nodes, i, q, r);
                    }
                }
            },
            None => {
                assert forall|a: int|
                    0 <= a < nodes.len() && #[trigger] is_same_or_descendant(nodes, i, a)
                        implies a == i by {}
            },
        }
    }
}

/// Whether node `j` is a scroll frame with external id `id` in a pipeline that
/// is not discarded: a node whose state a drain keeps.
pub open spec fn keeps_state_for<O>(
    nodes: Seq<SpatialNode<O>>,
    discarded: Set<PipelineId>,
    j: int,
    id: ExternalScrollId,
) -> bool {
    !discarded.contains(nodes[j].pipeline_id) && node_external_scroll_id(nodes[j]) == Some(id)
}

/// A drain keeps a state for exactly the external ids of scroll frames in
/// pipelines that are not discarded, and the state kept for an id is that of
/// the last such node with that id.
pub proof fn lemma_drain_keeps_last_state_of_kept_pipelines<O>(
    nodes: Seq<SpatialNode<O>>,
    discarded: Set<PipelineId>,
    n: int,
)
    requires
        0 <= n <= nodes.len(),
    ensures
        forall|id: ExternalScrollId|
            #[trigger] scroll_states_of(nodes, discarded, n).contains_key(id) <==> exists|j: int|
                0 <= j < n && #[trigger] keeps_state_for(nodes, discarded, j, id),
        forall|id: ExternalScrollId|
            #[trigger] scroll_states_of(nodes, discarded, n).contains_key(id) ==> exists|j: int|
                0 <= j < n && #[trigger] keeps_state_for(nodes, discarded, j, id)
                    && nodes[j].node_type == SpatialNodeType::ScrollFrame(
                    scroll_states_of(nodes, discarded, n)[id],
                ) && forall|j2: int| j < j2 < n ==> !keeps_state_for(nodes, discarded, j2, id),
    decreases n,
{
    if n > 0 {
        lemma_drain_keeps_last_state_of_kept_pipelines(nodes, discarded, n - 1);
        let m = scroll_states_of(nodes, discarded, n);
        let prev = scroll_states_of(nodes, discarded, n - 1);
        let last = n - 1;
        assert forall|id: ExternalScrollId| #[trigger] m.contains_key(id) <==> exists|j: int|
            0 <= j < n && #[trigger] keeps_state_for(nodes, discarded, j, id) by {
            if m.contains_key(id) && !prev.contains_key(id) {
                assert(keeps_state_for(nodes, discarded, last, id));
            }
            if exists|j: int| 0 <= j < n && #[trigger] keeps_state_for(nodes, discarded, j, id) {
                let j = choose|j: int| 0 <= j < n && #[trigger] keeps_state_for(nodes, discarded, j, id);
                if j < last {
                    assert(prev.contains_key(id));
                }
            }
        }
        assert forall|id: ExternalScrollId| #[trigger] m.contains_key(id) implies exists|j: int|
            0 <= j < n && #[trigger] keeps_state_for(nodes, discarded, j, id)
                && nodes[j].node_type == SpatialNodeType::ScrollFrame(m[id]) && forall|j2: int|
                j < j2 < n ==> !keeps_state_for(nodes, discarded, j2, id) by {
            if keeps_state_for(nodes, discarded, last, id) {
                assert(nodes[last].node_type == SpatialNodeType::ScrollFrame(m[id]));
            } else {
                assert(prev.contains_key(id));
                assert(m[id] == prev[id]);
                let j = choose|j: int|
                    0 <= j < n - 1 && #[trigger] keeps_state_for(nodes, discarded, j, id)
                        && nodes[j].node_type == SpatialNodeType::ScrollFrame(prev[id]) && forall|j2: int|
                        j < j2 < n - 1 ==> !keeps_state_for(nodes, discarded, j2, id);
                assert(forall|j2: int| j < j2 < n ==> !keeps_state_for(nodes, discarded, j2, id));
            }
        }
    }
}

/// The identity check is closed upwards: if a node is judged to be placed by
/// the identity, so is every node above it.
pub proof fn lemma_identity_holds_above<O>(nodes: Seq<SpatialNode<O>>, i: int, a: int)
    requires
        path_is_identity(nodes, i),
        is_same_or_descendant(nodes, i, a),
    ensures
        path_is_identity(nodes, a),
    decreases i,
{
    if i != a {
        let q = index_of(nodes[i].parent.unwrap());
        lemma_identity_holds_above(nodes, q, a);
    }
}

/// Finalizing uses up the pending requests of exactly the external ids that
/// scroll frames in the tree have, and leaves the others as they were.
pub proof fn lemma_finalize_uses_up_pending<O, P>(
    nodes: Seq<SpatialNode<O>>,
    old_states: Seq<(ExternalScrollId, crate::clip_scroll_tree::ScrollFrameInfo<O>)>,
    pending: Map<ExternalScrollId, P>,
    n: int,
)
    requires
        0 <= n <= nodes.len(),
    ensures
        forall|k: ExternalScrollId|
            #[trigger] finalize_plan(nodes, old_states, pending, n).1.contains_key(k) <==> (
            pending.contains_key(k) && !exists|j: int|
                0 <= j < n && #[trigger] node_external_scroll_id(nodes[j]) == Some(k)),
        forall|k: ExternalScrollId|
            #[trigger] finalize_plan(nodes, old_states, pending, n).1.contains_key(k)
                ==> finalize_plan(nodes, old_states, pending, n).1[k] == pending[k],
    decreases n,
{
    if n > 0 {
        lemma_finalize_uses_up_pending(nodes, old_states, pending, n - 1);
        let rest = finalize_plan(nodes, old_states, pending, n).1;
        let prev = finalize_plan(nodes, old_states, pending, n - 1).1;
        assert forall|k: ExternalScrollId| #[trigger] rest.contains_key(k) <==> (
        pending.contains_key(k) && !exists|j: int|
            0 <= j < n && #[trigger] node_external_scroll_id(nodes[j]) == Some(k)) by {
            if exists|j: int| 0 <= j < n && #[trigger] node_external_scroll_id(nodes[j]) == Some(k) {
                let j = choose|j: int| 0 <= j < n && #[trigger] node_external_scroll_id(nodes[j]) == Some(k);
                if j < n - 1 {
                    assert(!prev.contains_key(k));
                }
            }
        }
    }
}

/// In a list of pairs with distinct keys, the value found for a key from a
/// position up to where the key stands is the map's value for it.
proof fn lemma_first_value_from_represents<V>(
    pairs: Seq<(ExternalScrollId, V)>,
    m: Map<ExternalScrollId, V>,
    id: ExternalScrollId,
    j: int,
)
    requires
        represents(pairs, m),
        0 <= j <= pairs.len(),
        forall|a: int| 0 <= a < j ==> pairs[a].0 != id,
    ensures
        first_value_from(pairs, id, j) == if m.contains_key(id) {
            Some(m[id])
        } else {
            None::<V>
        },
    decreases pairs.len() - j,
{
    if j < pairs.len() {
        if pairs[j].0 != id {
            lemma_first_value_from_represents(pairs, m, id, j + 1);
        }
    } else {
        if m.contains_key(id) {
            let a = choose|a: int| 0 <= a < pairs.len() && pairs[a].0 == id;
            assert(pairs[a].0 != id);
        }
    }
}

/// Looking an id up in scroll states with distinct ids, such as those a drain
/// returns, gives the state kept for that id.
pub proof fn lemma_value_for_represents<V>(
    pairs: Seq<(ExternalScrollId, V)>,
    m: Map<ExternalScrollId, V>,
    id: ExternalScrollId,
)
    requires
        represents(pairs, m),
    ensures
        value_for(pairs, id) == if m.contains_key(id) {
            Some(m[id])
        } else {
            None::<V>
        },
{
    lemma_first_value_from_represents(pairs, m, id, 0);
}

/// With no pipeline marked for discarding, as after a drain, a drain keeps a
/// state for every external id of a scroll frame in the tree.
pub proof fn lemma_drain_without_discards_keeps_every_id<O>(nodes: Seq<SpatialNode<O>>, id: ExternalScrollId)
    ensures
        scroll_states_of(nodes, Set::<PipelineId>::empty(), nodes.len() as int).contains_key(id)
            <==> exists|j: int| 0 <= j < nodes.len() && #[trigger] node_external_scroll_id(nodes[j]) == Some(id),
{
    lemma_drain_keeps_last_state_of_kept_pipelines(nodes, Set::<PipelineId>::empty(), nodes.len() as int);
    if exists|j: int| 0 <= j < nodes.len() && #[trigger] node_external_scroll_id(nodes[j]) == Some(id) {
        let j = choose|j: int| 0 <= j < nodes.len() && #[trigger] node_external_scroll_id(nodes[j]) == Some(id);
        assert(keeps_state_for(nodes, Set::<PipelineId>::empty(), j, id));
    }
}

/// The walk from a child's coordinate system to a distinct parent's applies at
/// least one system, reads the face after the last one and flattens the
/// transform there, reads it after every flattening system, and ends at a
/// system whose parent is the parent's.
pub proof fn lemma_transform_steps_end_at_parent<T>(
    systems: Seq<CoordinateSystem<T>>,
    child: int,
    parent: int,
)
    requires
        system_reaches(systems, child, parent),
        child != parent,
        child <= u32::MAX,
    ensures
        transform_steps(systems, child, parent).len() > 0,
        ({
            let steps = transform_steps(systems, child, parent);
            let last = steps[steps.len() - 1];
            &&& last.updates_face
            &&& last.flattens
            &&& systems[system_index(last.system)].parent == Some(CoordinateSystemId(parent as u32))
        }),
        forall|k: int|
            0 <= k < transform_steps(systems, child, parent).len() && (#[trigger] transform_steps(
                systems,
                child,
                parent,
            )[k]).flattens ==> transform_steps(systems, child, parent)[k].updates_face,
    decreases child,
{
    let q = system_index(systems[child].parent.unwrap());
    let steps = transform_steps(systems, child, parent);
    if q != parent {
        lemma_transform_steps_end_at_parent(systems, q, parent);
        let rest = transform_steps(systems, q, parent);
        assert(steps[steps.len() - 1] == rest[rest.len() - 1]);
        assert forall|k: int| 0 <= k < steps.len() && (#[trigger] steps[k]).flattens implies steps[k].updates_face by {
            if k > 0 {
                assert(steps[k] == rest[k - 1]);
            }
        }
    } else {
        assert(transform_steps(systems, q, parent).len() == 0);
        assert(steps.len() == 1);
        assert(systems[child].parent == Some(CoordinateSystemId(parent as u32)));
        assert(steps[0].system == CoordinateSystemId(child as u32));
    }
}

/// A scroll state survives a rebuild: in the states that a drain returns,
/// the state found for an external id, which finalizing hands to the new
/// scroll frames with that id, is the scroll frame information, offset
/// included, of the last node with that id in a pipeline that was not
/// discarded; no state is found for an id that no such node had.
pub proof fn lemma_scroll_state_survives_rebuild<O>(
    nodes: Seq<SpatialNode<O>>,
    discarded: Set<PipelineId>,
    states: Seq<(ExternalScrollId, crate::clip_scroll_tree::ScrollFrameInfo<O>)>,
    id: ExternalScrollId,
)
    requires
        represents(states, scroll_states_of(nodes, discarded, nodes.len() as int)),
    ensures
        (exists|j: int| 0 <= j < nodes.len() && #[trigger] keeps_state_for(nodes, discarded, j, id))
            ==> value_for(states, id) is Some && exists|j: int|
            0 <= j < nodes.len() && #[trigger] keeps_state_for(nodes, discarded, j, id)
                && nodes[j].node_type == SpatialNodeType::ScrollFrame(value_for(states, id).unwrap())
                && forall|j2: int| j < j2 < nodes.len() ==> !keeps_state_for(nodes, discarded, j2, id),
        !(exists|j: int| 0 <= j < nodes.len() && #[trigger] keeps_state_for(nodes, discarded, j, id))
            ==> value_for(states, id) is None,
{
    let m = scroll_states_of(nodes, discarded, nodes.len() as int);
    lemma_drain_keeps_last_state_of_kept_pipelines(nodes, discarded, nodes.len() as int);
    lemma_value_for_represents(states, m, id);
    if m.contains_key(id) {
        assert(value_for(states, id).unwrap() == m[id]);
    }
}

/// Every action of finalizing the first `n` nodes is for one of them.
proof fn lemma_finalize_actions_for_first_nodes<O, P>(
    nodes: Seq<SpatialNode<O>>,
    old_states: Seq<(ExternalScrollId, crate::clip_scroll_tree::ScrollFrameInfo<O>)>,
    pending: Map<ExternalScrollId, P>,
    n: int,
)
    requires
        0 <= n <= nodes.len(),
        nodes.len() <= u32::MAX,
    ensures
        forall|a: int|
            0 <= a < finalize_plan(nodes, old_states, pending, n).0.len() ==> index_of(
                action_node(#[trigger] finalize_plan(nodes, old_states, pending, n).0[a]),
            ) < n,
    decreases n,
{
    if n > 0 {
        lemma_finalize_actions_for_first_nodes(nodes, old_states, pending, n - 1);
        let prev = finalize_plan(nodes, old_states, pending, n - 1).0;
        let plan = finalize_plan(nodes, old_states, pending, n).0;
        assert forall|a: int| 0 <= a < plan.len() implies index_of(action_node(#[trigger] plan[a])) < n by {
            if a < prev.len() {
                if node_external_scroll_id(nodes[n - 1]) is Some {
                    assert(plan[a] == prev[a]);
                }
            }
        }
    }
}

/// Finalizing applies a frame's waiting request after the old state it takes
/// over, so that the request wins.
pub proof fn lemma_finalize_request_after_old_state<O, P>(
    nodes: Seq<SpatialNode<O>>,
    old_states: Seq<(ExternalScrollId, crate::clip_scroll_tree::ScrollFrameInfo<O>)>,
    pending: Map<ExternalScrollId, P>,
    n: int,
)
    requires
        0 <= n <= nodes.len(),
        nodes.len() <= u32::MAX,
    ensures
        ({
            let plan = finalize_plan(nodes, old_states, pending, n).0;
            forall|a: int, b: int|
                0 <= a < plan.len() && 0 <= b < plan.len() && (#[trigger] plan[a]) is TakeOldState
                    && (#[trigger] plan[b]) is ApplyRequest && action_node(plan[a]) == action_node(
                    plan[b],
                ) ==> a < b
        }),
    decreases n,
{
    if n > 0 {
        lemma_finalize_request_after_old_state(nodes, old_states, pending, n - 1);
        lemma_finalize_actions_for_first_nodes(nodes, old_states, pending, n - 1);
        let prev = finalize_plan(nodes, old_states, pending, n - 1);
        let plan = finalize_plan(nodes, old_states, pending, n).0;
        match node_external_scroll_id(nodes[n - 1]) {
            Some(id) => {
                let node = SpatialNodeIndex((n - 1) as u32);
                let fa = frame_actions(
                    node,
                    crate::clip_scroll_tree::value_for(old_states, id),
                    if prev.1.contains_key(id) {
                        Some(prev.1[id])
                    } else {
                        None
                    },
                );
                assert(plan == prev.0 + fa);
                let l = prev.0.len() as int;
                assert forall|x: int| 0 <= x < fa.len() implies action_node(#[trigger] fa[x]) == node by {}
                assert forall|a: int, b: int|
                    0 <= a < plan.len() && 0 <= b < plan.len() && (#[trigger] plan[a]) is TakeOldState
                        && (#[trigger] plan[b]) is ApplyRequest && action_node(plan[a]) == action_node(
                        plan[b],
                    ) implies a < b by {
                    if a < l && b < l {
                        assert(plan[a] == prev.0[a]);
                        assert(plan[b] == prev.0[b]);
                    } else if a >= l && b < l {
                        assert(plan[a] == fa[a - l]);
                        assert(plan[b] == prev.0[b]);
                        assert(index_of(action_node(prev.0[b])) < n - 1);
                    } else if a >= l && b >= l {
                        assert(plan[a] == fa[a - l]);
                        assert(plan[b] == fa[b - l]);
                    }
                }
            },
            None => {},
        }
    }
}

/// What setting a scroll frame's offset stores is what the scroll node state
/// of the tree reports for its external id.
proof fn lemma_set_offset_reported_from<O>(
    nodes: Seq<SpatialNode<O>>,
    j: int,
    id: ExternalScrollId,
    offset: O,
    n: int,
)
    requires
        0 <= j < n <= nodes.len(),
        node_external_scroll_id(nodes[j]) == Some(id),
    ensures
        scroll_node_states(nodes.update(j, with_scroll_offset(nodes[j], offset)), n).contains(
            ScrollNodeState { id, scroll_offset: offset },
        ),
    decreases n,
{
    let new_nodes = nodes.update(j, with_scroll_offset(nodes[j], offset));
    let state = ScrollNodeState { id, scroll_offset: offset };
    if n - 1 == j {
        let prev = scroll_node_states(new_nodes, n - 1);
        assert(scroll_node_states(new_nodes, n) == prev.push(state));
        assert(scroll_node_states(new_nodes, n)[prev.len() as int] == state);
    } else {
        lemma_set_offset_reported_from(nodes, j, id, offset, n - 1);
        let prev = scroll_node_states(new_nodes, n - 1);
        let k = choose|k: int| 0 <= k < prev.len() && prev[k] == state;
        assert(scroll_node_states(new_nodes, n)[k] == state);
    }
}

/// A scroll offset survives a rebuild once it is stored: after a scroll frame
/// with external id `id` takes over an old state and the offset that results
/// is stored with `set_scroll_offset`, the tree reports that offset for `id`.
/// Together with `lemma_scroll_state_survives_rebuild`, the old state is the
/// one the drained tree kept for `id`.
pub proof fn lemma_stored_offset_is_reported<O>(
    nodes: Seq<SpatialNode<O>>,
    j: int,
    id: ExternalScrollId,
    offset: O,
)
    requires
        0 <= j < nodes.len(),
        node_external_scroll_id(nodes[j]) == Some(id),
    ensures
        scroll_node_states(
            nodes.update(j, with_scroll_offset(nodes[j], offset)),
            nodes.len() as int,
        ).contains(ScrollNodeState { id, scroll_offset: offset }),
{
    lemma_set_offset_reported_from(nodes, j, id, offset, nodes.len() as int);
}

/// Whether a node is a scroll frame whose external id is `id`: the same number
/// in the same pipeline.
pub open spec fn is_frame_with_id<O>(node: SpatialNode<O>, id: ExternalScrollId) -> bool {
    match node.node_type {
        SpatialNodeType::ScrollFrame(info) => info.external_id == Some(id),
        _ => false,
    }
}

/// The first frame with id `id` from position `j` on, as a law.
proof fn lemma_first_node_with_id_from<O>(nodes: Seq<SpatialNode<O>>, id: ExternalScrollId, j: int)
    requires
        0 <= j <= nodes.len(),
        nodes.len() <= u32::MAX,
    ensures
        match first_node_with_id(nodes, id, j) {
            Some(k) => {
                &&& j <= index_of(k) < nodes.len()
                &&& is_frame_with_id(nodes[index_of(k)], id)
                &&& forall|m: int| j <= m < index_of(k) ==> !is_frame_with_id(#[trigger] nodes[m], id)
            },
            None => forall|m: int| j <= m < nodes.len() ==> !is_frame_with_id(#[trigger] nodes[m], id),
        },
    decreases nodes.len() - j,
{
    if j < nodes.len() {
        if node_external_scroll_id(nodes[j]) != Some(id) {
            lemma_first_node_with_id_from(nodes, id, j + 1);
        }
    }
}

/// A scroll request for external id `id` goes to the first node that is a
/// scroll frame with exactly that id (number and pipeline); it is kept
/// pending only when no node is such a frame.
pub proof fn lemma_scroll_request_target<O>(nodes: Seq<SpatialNode<O>>, id: ExternalScrollId)
    requires
        nodes.len() <= u32::MAX,
    ensures
        match first_node_with_id(nodes, id, 0) {
            Some(k) => {
                &&& 0 <= index_of(k) < nodes.len()
                &&& is_frame_with_id(nodes[index_of(k)], id)
                &&& forall|m: int| 0 <= m < index_of(k) ==> !is_frame_with_id(#[trigger] nodes[m], id)
            },
            None => forall|m: int| 0 <= m < nodes.len() ==> !is_frame_with_id(#[trigger] nodes[m], id),
        },
{
    lemma_first_node_with_id_from(nodes, id, 0);
}

/// What each kind of node on the way to the root must be for the identity
/// check to hold: a reference frame with the fixed identity transform (of any
/// kind), or the root scroll frame of a pipeline; never a sticky frame, an
/// explicit scroll frame, a reference frame with another fixed transform or
/// with an animated one.
pub open spec fn placed_by_identity<O>(node: SpatialNode<O>) -> bool {
    match node.node_type {
        SpatialNodeType::ReferenceFrame(info) => match info.source_transform {
            SourceTransform::Value { is_identity } => is_identity,
            SourceTransform::Binding => false,
        },
        SpatialNodeType::ScrollFrame(info) => match info.frame_kind {
            ScrollFrameKind::PipelineRoot => true,
            ScrollFrameKind::Explicit => false,
        },
        SpatialNodeType::StickyFrame => false,
    }
}

/// A node is judged to be placed by the identity exactly when the way from it
/// up to the root node leads there through nodes, the root excluded, each of
/// which is placed by the identity.
pub proof fn lemma_identity_exactly_when_path_is_plain<O>(nodes: Seq<SpatialNode<O>>, i: int)
    ensures
        path_is_identity(nodes, i) ==> is_same_or_descendant(nodes, i, ROOT_SPATIAL_NODE_INDEX as int),
        path_is_identity(nodes, i) ==> forall|a: int|
            a != ROOT_SPATIAL_NODE_INDEX as int && #[trigger] is_same_or_descendant(nodes, i, a)
                ==> 0 <= a < nodes.len() && placed_by_identity(nodes[a]),
        is_same_or_descendant(nodes, i, ROOT_SPATIAL_NODE_INDEX as int) && (forall|a: int|
            a != ROOT_SPATIAL_NODE_INDEX as int && #[trigger] is_same_or_descendant(nodes, i, a)
                ==> 0 <= a < nodes.len() && placed_by_identity(nodes[a])) ==> path_is_identity(
            nodes,
            i,
        ),
    decreases i,
{
    let root = ROOT_SPATIAL_NODE_INDEX as int;
    if i != root && 0 <= i < nodes.len() {
        match nodes[i].parent {
            Some(qi) => {
                let q = index_of(qi);
                if 0 <= q < i {
                    lemma_identity_exactly_when_path_is_plain(nodes, q);
                    assert(is_same_or_descendant(nodes, i, i));
                    assert forall|a: int|
                        a != root && #[trigger] is_same_or_descendant(nodes, i, a) && a != i
                            implies is_same_or_descendant(nodes, q, a) by {}
                    assert forall|a: int|
                        #[trigger] is_same_or_descendant(nodes, q, a) implies is_same_or_descendant(
                        nodes,
                        i,
                        a,
                    ) by {
                        assert(is_same_or_descendant(nodes, q, q));
                        assert(is_same_or_descendant(nodes, i, q));
                        lemma_descendant_transitive(nodes, i, q, a);
                    }
                }
            },
            None => {},
        }
    }
}

/// The value found for `id` from position `j` on is that of the first pair
/// with key `id` at or after `j`.
proof fn lemma_first_value_from_first_pair<V>(
    pairs: Seq<(ExternalScrollId, V)>,
    id: ExternalScrollId,
    j: int,
    k: int,
)
    requires
        0 <= j <= k < pairs.len(),
        pairs[k].0 == id,
        forall|m: int| j <= m < k ==> pairs[m].0 != id,
    ensures
        first_value_from(pairs, id, j) == Some(pairs[k].1),
    decreases k - j,
{
    if j < k {
        lemma_first_value_from_first_pair(pairs, id, j + 1, k);
    }
}

/// Finalizing hands every scroll frame, whatever its kind, the old state for
/// its external id: the value of the first pair with that id in the previous
/// tree's states.
pub proof fn lemma_finalize_takes_over_every_old_state<O, P>(
    nodes: Seq<SpatialNode<O>>,
    old_states: Seq<(ExternalScrollId, crate::clip_scroll_tree::ScrollFrameInfo<O>)>,
    pending: Map<ExternalScrollId, P>,
    n: int,
    j: int,
    id: ExternalScrollId,
    k: int,
)
    requires
        0 <= j < n <= nodes.len(),
        nodes.len() <= u32::MAX,
        is_frame_with_id(nodes[j], id),
        0 <= k < old_states.len(),
        old_states[k].0 == id,
        forall|m: int| 0 <= m < k ==> old_states[m].0 != id,
    ensures
        finalize_plan(nodes, old_states, pending, n).0.contains(
            ScrollAction::<O, P>::TakeOldState {
                node: SpatialNodeIndex(j as u32),
                old_state: old_states[k].1,
            },
        ),
    decreases n,
{
    let action = ScrollAction::<O, P>::TakeOldState {
        node: SpatialNodeIndex(j as u32),
        old_state: old_states[k].1,
    };
    let prev = finalize_plan(nodes, old_states, pending, n - 1);
    let plan = finalize_plan(nodes, old_states, pending, n).0;
    if n - 1 == j {
        lemma_first_value_from_first_pair(old_states, id, 0, k);
        assert(node_external_scroll_id(nodes[j]) == Some(id));
        let fa = frame_actions(
            SpatialNodeIndex(j as u32),
            value_for(old_states, id),
            if prev.1.contains_key(id) {
                Some(prev.1[id])
            } else {
                None
            },
        );
        assert(plan == prev.0 + fa);
        assert(fa[0] == action);
        assert(plan[prev.0.len() as int] == action);
    } else {
        lemma_finalize_takes_over_every_old_state(nodes, old_states, pending, n - 1, j, id, k);
        let a = choose|a: int| 0 <= a < prev.0.len() && prev.0[a] == action;
        if node_external_scroll_id(nodes[n - 1]) is Some {
            assert(plan[a] == prev.0[a]);
        }
        assert(plan[a] == action);
    }
}

} // verus!
