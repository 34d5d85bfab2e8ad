//! The spatial tree: nodes that position primitives and clips, each pointing
//! at its parent and listing its children, with the queries and traversals
//! that the renderer makes of it.

use vstd::prelude::*;

use crate::display_item::{ReferenceFrameKind, ScrollSensitivity, TransformStyle};
use crate::ids::{ExternalScrollId, PipelineId};

verus! {

/// An id that identifies a coordinate system. Nodes in the same axis-aligned
/// space share one.
#[derive(Clone, Copy, Debug, PartialEq, Eq, Structural)]
pub struct CoordinateSystemId(pub u32);

impl CoordinateSystemId {
    /// The coordinate system of the root reference frame.
    pub fn root() -> (res: CoordinateSystemId)
        ensures
            res == CoordinateSystemId(0),
    {
        CoordinateSystemId(0)
    }
}

/// The position of a node in the tree's list of spatial nodes.
#[derive(Clone, Copy, Debug, PartialEq, Eq, Hash, PartialOrd, Ord, Structural)]
pub struct SpatialNodeIndex(pub u32);

/// The number in the index of the root reference frame.
pub const ROOT_SPATIAL_NODE_INDEX: u32 = 0;

/// The number in the index of the root scroll node, the first child of the
/// root reference frame.
pub const TOPMOST_SCROLL_NODE_INDEX: u32 = 1;

impl SpatialNodeIndex {
    pub fn new(index: usize) -> (res: SpatialNodeIndex)
        requires
            index < u32::MAX,
        ensures
            res.0 == index,
    {
        SpatialNodeIndex(index as u32)
    }
}

/// A node in the hierarchy of coordinate systems: the transform into its
/// parent system, whether the Z component is flattened when passing it on the
/// way to a parent, and the parent.
#[derive(Debug)]
pub struct CoordinateSystem<T> {
    pub transform: T,
    pub is_flatten_root: bool,
    pub parent: Option<CoordinateSystemId>,
}

impl<T> CoordinateSystem<T> {
    /// The root coordinate system, given the identity transform.
    pub fn root(identity: T) -> (res: CoordinateSystem<T>)
        ensures
            res.transform == identity,
            res.is_flatten_root,
            res.parent == None::<CoordinateSystemId>,
    {
        CoordinateSystem { transform: identity, is_flatten_root: true, parent: None }
    }
}

/// The index of a coordinate system as a number.
pub open spec fn system_index(id: CoordinateSystemId) -> int {
    id.0 as int
}

/// Whether following parent links from system `i` leads to system `target`,
/// each parent coming before the system that names it.
pub open spec fn system_reaches<T>(systems: Seq<CoordinateSystem<T>>, i: int, target: int) -> bool
    decreases i,
{
    if i == target {
        true
    } else if 0 <= i < systems.len() {
        match systems[i].parent {
            Some(q) => 0 <= system_index(q) < i && system_reaches(systems, system_index(q), target),
            None => false,
        }
    } else {
        false
    }
}

/// One step of the walk from a child's coordinate system up to a parent's:
/// the system whose transform is applied, whether the visible face and the
/// perspective are read off the transform after it, and whether the
/// transform is then flattened (its Z output made zero).
#[derive(Clone, Copy, Debug, PartialEq, Eq, Structural)]
pub struct TransformStep {
    pub system: CoordinateSystemId,
    pub updates_face: bool,
    pub flattens: bool,
}

/// The steps of the walk from system `i` up to system `target`: every system
/// passed is applied; the face is read, and the transform flattened, at a
/// flattening system and at the last step, so that the result produces Z = 0.
pub open spec fn transform_steps<T>(systems: Seq<CoordinateSystem<T>>, i: int, target: int) -> Seq<TransformStep>
    decreases i,
{
    if i == target || !(0 <= i < systems.len()) {
        Seq::empty()
    } else {
        match systems[i].parent {
            Some(q) => if 0 <= system_index(q) < i {
                seq![
                    TransformStep {
                        system: CoordinateSystemId(i as u32),
                        updates_face: systems[i].is_flatten_root || system_index(q) == target,
                        flattens: systems[i].is_flatten_root || system_index(q) == target,
                    },
                ] + transform_steps(systems, system_index(q), target)
            } else {
                Seq::empty()
            },
            None => Seq::empty(),
        }
    }
}

/// Whether following parent links from `child` leads to `parent`, each parent
/// coming before the system that names it.
pub fn systems_connected<T>(
    coord_systems: &Vec<CoordinateSystem<T>>,
    child: CoordinateSystemId,
    parent: CoordinateSystemId,
) -> (res: bool)
    ensures
        res == system_reaches(coord_systems@, system_index(child), system_index(parent)),
{
    let ghost systems = coord_systems@;
    let mut current = child;
    loop
        invariant
            systems == coord_systems@,
            system_reaches(systems, system_index(child), system_index(parent)) == system_reaches(
                systems,
                system_index(current),
                system_index(parent),
            ),
        decreases system_index(current),
    {
        if current == parent {
            return true;
        }
        if current.0 as usize >= coord_systems.len() {
            return false;
        }
        let next = match coord_systems[current.0 as usize].parent {
            Some(next) => next,
            None => return false,
        };
        if next.0 >= current.0 {
            return false;
        }
        current = next;
    }
}

/// The walk that computing the transform from a child's coordinate system to
/// a parent's makes: the systems from `child` up to, not including, `parent`,
/// each with whether the face is read after it and whether it flattens.
pub fn relative_transform_steps<T>(
    coord_systems: &Vec<CoordinateSystem<T>>,
    child: CoordinateSystemId,
    parent: CoordinateSystemId,
) -> (res: Vec<TransformStep>)
    requires
        system_reaches(coord_systems@, system_index(child), system_index(parent)),
    ensures
        res@ == transform_steps(coord_systems@, system_index(child), system_index(parent)),
{
    let ghost systems = coord_systems@;
    let ghost target = system_index(parent);
    let mut steps: Vec<TransformStep> = Vec::new();
    let mut current = child;
    while current != parent
        invariant
            systems == coord_systems@,
            target == system_index(parent),
            system_reaches(systems, system_index(current), target),
            steps@ + transform_steps(systems, system_index(current), target) == transform_steps(
                systems,
                system_index(child),
                target,
            ),
        decreases system_index(current),
    {
        let system = &coord_systems[current.0 as usize];
        let next = match system.parent {
            Some(next) => next,
            None => {
                assert(false);
                parent
            },
        };
        steps.push(
            TransformStep {
                system: current,
                updates_face: system.is_flatten_root || next == parent,
                flattens: system.is_flatten_root || next == parent,
            },
        );
        proof {
            let rest = transform_steps(systems, system_index(next), target);
            assert(steps@ + rest =~= steps@.drop_last() + transform_steps(
                systems,
                system_index(current),
                target,
            ));
        }
        current = next;
    }
    steps
}

/// The face of a transformed plane that faces the viewer.
#[derive(Clone, Copy, Debug, PartialEq, Eq, Structural)]
pub enum VisibleFace {
    Front,
    Back,
}

impl VisibleFace {
    pub open spec fn spec_not(self) -> VisibleFace {
        match self {
            VisibleFace::Front => VisibleFace::Back,
            VisibleFace::Back => VisibleFace::Front,
        }
    }
}

impl Default for VisibleFace {
    fn default() -> (res: VisibleFace)
        ensures
            res == VisibleFace::Front,
    {
        VisibleFace::Front
    }
}

impl core::ops::Not for VisibleFace {
    type Output = VisibleFace;

    fn not(self) -> (res: VisibleFace) {
        match self {
            VisibleFace::Front => VisibleFace::Back,
            VisibleFace::Back => VisibleFace::Front,
        }
    }
}

impl vstd::std_specs::ops::NotSpecImpl for VisibleFace {
    open spec fn obeys_not_spec() -> bool {
        true
    }

    open spec fn not_req(self) -> bool {
        true
    }

    open spec fn not_spec(self) -> VisibleFace {
        self.spec_not()
    }
}

/// Turning a plane over twice shows the face it showed.
pub proof fn lemma_visible_face_not_involutive(face: VisibleFace)
    ensures
        face.spec_not().spec_not() == face,
        face.spec_not() != face,
{
}


/// Whether a scroll frame is the root scroll frame of a pipeline or one that
/// the content asked for.
#[derive(Clone, Copy, Debug, PartialEq, Eq, Structural)]
pub enum ScrollFrameKind {
    PipelineRoot,
    Explicit,
}

/// What the tree reads of a scroll frame.
#[derive(Clone, Copy, Debug, PartialEq)]
pub struct ScrollFrameInfo<O> {
    /// The id that names this scroll frame across display lists, if it has one.
    pub external_id: Option<ExternalScrollId>,
    pub scroll_sensitivity: ScrollSensitivity,
    pub frame_kind: ScrollFrameKind,
    /// How far the content has been scrolled; the tree carries it and never
    /// reads it.
    pub offset: O,
}

impl<O> ScrollFrameInfo<O> {
    pub open spec fn spec_sensitive_to_input_events(self) -> bool {
        self.scroll_sensitivity == ScrollSensitivity::ScriptAndInputEvents
    }

    /// Whether input events (and not only script) scroll this frame.
    pub fn sensitive_to_input_events(&self) -> (res: bool)
        ensures
            res == self.spec_sensitive_to_input_events(),
    {
        match self.scroll_sensitivity {
            ScrollSensitivity::ScriptAndInputEvents => true,
            ScrollSensitivity::Script => false,
        }
    }
}

/// How the transform of a reference frame is given, as far as the tree reads it.
#[derive(Clone, Copy, Debug, PartialEq, Eq, Structural)]
pub enum SourceTransform {
    /// A fixed transform; `is_identity` tells whether it is the identity transform.
    Value { is_identity: bool },
    /// A transform bound to a property that animations may change.
    Binding,
}

/// What the tree reads of a reference frame.
#[derive(Clone, Copy, Debug, PartialEq, Eq, Structural)]
pub struct ReferenceFrameInfo {
    pub source_transform: SourceTransform,
    pub transform_style: TransformStyle,
    pub kind: ReferenceFrameKind,
}

/// The three kinds of spatial node.
#[derive(Clone, Copy, Debug, PartialEq)]
pub enum SpatialNodeType<O> {
    /// A frame that sticks to the edges of its scroll frame's viewport.
    StickyFrame,
    /// A frame whose content can be scrolled.
    ScrollFrame(ScrollFrameInfo<O>),
    /// A frame that establishes a new reference frame through a transform.
    ReferenceFrame(ReferenceFrameInfo),
}

/// A node of the spatial tree.
#[derive(Debug)]
pub struct SpatialNode<O> {
    /// The node this one is placed in; `None` for a root.
    pub parent: Option<SpatialNodeIndex>,
    /// The nodes placed in this one, in the order they were added.
    pub children: Vec<SpatialNodeIndex>,
    pub pipeline_id: PipelineId,
    pub node_type: SpatialNodeType<O>,
}

impl<O> SpatialNode<O> {
    /// A scroll frame whose content starts scrolled by `offset`.
    pub fn new_scroll_frame(
        pipeline_id: PipelineId,
        parent_index: SpatialNodeIndex,
        external_id: Option<ExternalScrollId>,
        scroll_sensitivity: ScrollSensitivity,
        frame_kind: ScrollFrameKind,
        offset: O,
    ) -> (res: SpatialNode<O>)
        ensures
            res.parent == Some(parent_index),
            res.children@.len() == 0,
            res.pipeline_id == pipeline_id,
            res.node_type == SpatialNodeType::ScrollFrame(
                (ScrollFrameInfo { external_id, scroll_sensitivity, frame_kind, offset }),
            ),
    {
        SpatialNode {
            parent: Some(parent_index),
            children: Vec::new(),
            pipeline_id,
            node_type: SpatialNodeType::ScrollFrame(
                ScrollFrameInfo { external_id, scroll_sensitivity, frame_kind, offset },
            ),
        }
    }

    pub fn new_reference_frame(
        parent_index: Option<SpatialNodeIndex>,
        transform_style: TransformStyle,
        source_transform: SourceTransform,
        kind: ReferenceFrameKind,
        pipeline_id: PipelineId,
    ) -> (res: SpatialNode<O>)
        ensures
            res.parent == parent_index,
            res.children@.len() == 0,
            res.pipeline_id == pipeline_id,
            res.node_type == SpatialNodeType::<O>::ReferenceFrame(
                (ReferenceFrameInfo { source_transform, transform_style, kind }),
            ),
    {
        SpatialNode {
            parent: parent_index,
            children: Vec::new(),
            pipeline_id,
            node_type: SpatialNodeType::ReferenceFrame(
                ReferenceFrameInfo { source_transform, transform_style, kind },
            ),
        }
    }

    pub fn new_sticky_frame(parent_index: SpatialNodeIndex, pipeline_id: PipelineId) -> (res:
        SpatialNode<O>)
        ensures
            res.parent == Some(parent_index),
            res.children@.len() == 0,
            res.pipeline_id == pipeline_id,
            res.node_type == SpatialNodeType::<O>::StickyFrame,
    {
        SpatialNode {
            parent: Some(parent_index),
            children: Vec::new(),
            pipeline_id,
            node_type: SpatialNodeType::StickyFrame,
        }
    }
}

/// The index of a node as a number.
pub open spec fn index_of(index: SpatialNodeIndex) -> int {
    index.0 as int
}

/// The well-formedness of a list of spatial nodes: a parent comes before its
/// children, a node's children are the nodes that name it as parent, listed
/// in increasing order.
pub open spec fn well_formed_nodes<O>(nodes: Seq<SpatialNode<O>>) -> bool {
    &&& nodes.len() <= u32::MAX
    &&& forall|i: int|
        #![trigger nodes[i].parent]
        0 <= i < nodes.len() ==> match nodes[i].parent {
            Some(p) => {
                &&& index_of(p) < i
                &&& nodes[index_of(p)].children@.contains(SpatialNodeIndex(i as u32))
            },
            None => true,
        }
    &&& forall|i: int, k: int|
        #![trigger nodes[i].children@[k]]
        0 <= i < nodes.len() && 0 <= k < nodes[i].children@.len() ==> {
            let c = index_of(nodes[i].children@[k]);
            &&& i < c < nodes.len()
            &&& nodes[c].parent == Some(SpatialNodeIndex(i as u32))
        }
    &&& forall|i: int, k1: int, k2: int|
        #![trigger nodes[i].children@[k1], nodes[i].children@[k2]]
        0 <= i < nodes.len() && 0 <= k1 < k2 < nodes[i].children@.len() ==> index_of(
            nodes[i].children@[k1],
        ) < index_of(nodes[i].children@[k2])
}

/// Node indices fit in 32 bits and every parent comes before its children:
/// what adding nodes keeps, whatever nodes are added.
pub open spec fn parents_precede<O>(nodes: Seq<SpatialNode<O>>) -> bool {
    &&& nodes.len() <= u32::MAX
    &&& forall|i: int|
        #![trigger nodes[i].parent]
        0 <= i < nodes.len() ==> match nodes[i].parent {
            Some(p) => index_of(p) < i,
            None => true,
        }
}

/// Every child that a node lists comes after that node.
pub open spec fn children_follow<O>(nodes: Seq<SpatialNode<O>>) -> bool {
    forall|i: int, k: int|
        #![trigger nodes[i].children@[k]]
        0 <= i < nodes.len() && 0 <= k < nodes[i].children@.len() ==> i < index_of(
            nodes[i].children@[k],
        )
}

/// Whether node `i` is node `p` or lies below it, following parent links.
pub open spec fn is_same_or_descendant<O>(nodes: Seq<SpatialNode<O>>, i: int, p: int) -> bool
    decreases i,
{
    if i == p {
        true
    } else if 0 <= i < nodes.len() {
        match nodes[i].parent {
            Some(q) => if 0 <= index_of(q) < i {
                is_same_or_descendant(nodes, index_of(q), p)
            } else {
                false
            },
            None => false,
        }
    } else {
        false
    }
}

/// The nodes after `node` was appended to `old` and its parent, if any, was
/// given the new index as last child.
pub open spec fn appended_node<O>(old: Seq<SpatialNode<O>>, new: Seq<SpatialNode<O>>, node: SpatialNode<O>) -> bool {
    let n = old.len();
    &&& new.len() == n + 1
    &&& new[n as int].parent == node.parent
    &&& new[n as int].pipeline_id == node.pipeline_id
    &&& new[n as int].node_type == node.node_type
    &&& new[n as int].children@ == node.children@
    &&& forall|j: int|
        #![trigger new[j]]
        0 <= j < n ==> {
            &&& new[j].parent == old[j].parent
            &&& new[j].pipeline_id == old[j].pipeline_id
            &&& new[j].node_type == old[j].node_type
            &&& new[j].children@ == if node.parent == Some(SpatialNodeIndex(j as u32)) {
                old[j].children@.push(SpatialNodeIndex(n as u32))
            } else {
                old[j].children@
            }
        }
}

/// Whether input events scroll a node: it is a scroll frame sensitive to them.
pub open spec fn scrolls_on_input<O>(node: SpatialNode<O>) -> bool {
    match node.node_type {
        SpatialNodeType::ScrollFrame(info) => info.spec_sensitive_to_input_events(),
        _ => false,
    }
}

/// The nearest node at or above node `i` that input events scroll; the
/// topmost scroll node where there is none.
pub open spec fn nearest_scrolling_ancestor_of<O>(nodes: Seq<SpatialNode<O>>, i: int) -> int
    decreases i,
{
    if 0 <= i < nodes.len() {
        if scrolls_on_input(nodes[i]) {
            i
        } else {
            match nodes[i].parent {
                Some(q) => if 0 <= index_of(q) < i {
                    nearest_scrolling_ancestor_of(nodes, index_of(q))
                } else {
                    TOPMOST_SCROLL_NODE_INDEX as int
                },
                None => TOPMOST_SCROLL_NODE_INDEX as int,
            }
        }
    } else {
        TOPMOST_SCROLL_NODE_INDEX as int
    }
}

/// The nearest node scrolled by input at or above the given node, if any is
/// given; the topmost scroll node otherwise.
pub open spec fn nearest_scrolling_ancestor<O>(nodes: Seq<SpatialNode<O>>, index: Option<SpatialNodeIndex>) -> int {
    match index {
        Some(i) => nearest_scrolling_ancestor_of(nodes, index_of(i)),
        None => TOPMOST_SCROLL_NODE_INDEX as int,
    }
}

/// Whether a node leaves positions as they are, as far as can be told without
/// knowing scroll offsets or animated values: a reference frame with the fixed
/// identity transform, or a scroll frame that is a pipeline's root.
pub open spec fn keeps_identity<O>(node: SpatialNode<O>) -> bool {
    match node.node_type {
        SpatialNodeType::ReferenceFrame(info) => info.source_transform
            == SourceTransform::Value { is_identity: true },
        SpatialNodeType::ScrollFrame(info) => info.frame_kind != ScrollFrameKind::Explicit,
        SpatialNodeType::StickyFrame => false,
    }
}

/// Whether the walk from node `i` up to the root node stays on nodes with a
/// parent until it reaches the root or a node that does not keep the identity.
pub open spec fn identity_walk_defined<O>(nodes: Seq<SpatialNode<O>>, i: int) -> bool
    decreases i,
{
    if i == ROOT_SPATIAL_NODE_INDEX as int {
        true
    } else if 0 <= i < nodes.len() {
        !keeps_identity(nodes[i]) || match nodes[i].parent {
            Some(q) => 0 <= index_of(q) < i && identity_walk_defined(nodes, index_of(q)),
            None => false,
        }
    } else {
        false
    }
}

/// Whether every node from node `i` up to, not including, the root node keeps
/// the identity.
pub open spec fn path_is_identity<O>(nodes: Seq<SpatialNode<O>>, i: int) -> bool
    decreases i,
{
    if i == ROOT_SPATIAL_NODE_INDEX as int {
        true
    } else if 0 <= i < nodes.len() {
        keeps_identity(nodes[i]) && match nodes[i].parent {
            Some(q) => 0 <= index_of(q) < i && path_is_identity(nodes, index_of(q)),
            None => false,
        }
    } else {
        false
    }
}

/// The external id of a node: that of a scroll frame which has one.
pub open spec fn node_external_scroll_id<O>(node: SpatialNode<O>) -> Option<ExternalScrollId> {
    match node.node_type {
        SpatialNodeType::ScrollFrame(info) => info.external_id,
        _ => None,
    }
}

/// The external id and scroll offset of a scroll frame.
#[derive(Clone, Copy, Debug, PartialEq)]
pub struct ScrollNodeState<O> {
    pub id: ExternalScrollId,
    pub scroll_offset: O,
}

/// The state of each scroll frame among the first `n` nodes that has an
/// external id, in node order.
pub open spec fn scroll_node_states<O>(nodes: Seq<SpatialNode<O>>, n: int) -> Seq<ScrollNodeState<O>>
    decreases n,
{
    if n <= 0 || n > nodes.len() {
        Seq::empty()
    } else {
        let prev = scroll_node_states(nodes, n - 1);
        match nodes[n - 1].node_type {
            SpatialNodeType::ScrollFrame(info) => match info.external_id {
                Some(id) => prev.push(ScrollNodeState { id, scroll_offset: info.offset }),
                None => prev,
            },
            _ => prev,
        }
    }
}

/// The scroll state kept of the first `n` nodes: for each external id, the
/// scroll frame information of the last node with that id whose pipeline is
/// not discarded.
pub open spec fn scroll_states_of<O>(nodes: Seq<SpatialNode<O>>, discarded: Set<PipelineId>, n: int) -> Map<
    ExternalScrollId,
    ScrollFrameInfo<O>,
>
    decreases n,
{
    if n <= 0 || n > nodes.len() {
        Map::empty()
    } else {
        let prev = scroll_states_of(nodes, discarded, n - 1);
        let node = nodes[n - 1];
        if discarded.contains(node.pipeline_id) {
            prev
        } else {
            match node.node_type {
                SpatialNodeType::ScrollFrame(info) => match info.external_id {
                    Some(id) => prev.insert(id, info),
                    None => prev,
                },
                _ => prev,
            }
        }
    }
}

/// Scroll states by external id: pairs with distinct ids.
pub type ScrollStates<O> = Vec<(ExternalScrollId, ScrollFrameInfo<O>)>;

/// Whether a list of pairs with distinct keys holds exactly the entries of a map.
pub open spec fn represents<V>(pairs: Seq<(ExternalScrollId, V)>, m: Map<ExternalScrollId, V>) -> bool {
    &&& forall|a: int, b: int|
        #![trigger pairs[a], pairs[b]]
        0 <= a < b < pairs.len() ==> pairs[a].0 != pairs[b].0
    &&& forall|j: int|
        #![trigger pairs[j]]
        0 <= j < pairs.len() ==> m.contains_key(pairs[j].0) && m[pairs[j].0] == pairs[j].1
    &&& forall|k: ExternalScrollId|
        #[trigger] m.contains_key(k) ==> exists|j: int| 0 <= j < pairs.len() && pairs[j].0 == k
}

/// Sets the value kept for an external id, replacing any earlier one.
fn insert_entry<V>(
    states: &mut Vec<(ExternalScrollId, V)>,
    id: ExternalScrollId,
    info: V,
    Ghost(m): Ghost<Map<ExternalScrollId, V>>,
)
    requires
        represents(old(states)@, m),
    ensures
        represents(final(states)@, m.insert(id, info)),
{
    let ghost before = states@;
    let mut j: usize = 0;
    while j < states.len()
        invariant
            states@ == before,
            represents(before, m),
            j <= before.len(),
            forall|a: int| 0 <= a < j ==> before[a].0 != id,
        decreases before.len() - j,
    {
        if states[j].0 == id {
            states.set(j, (id, info));
            let ghost after = states@;
            let ghost m2 = m.insert(id, info);
            assert forall|a: int, b: int|
                #![trigger after[a], after[b]]
                0 <= a < b < after.len() implies after[a].0 != after[b].0 by {
                assert(before[a].0 != before[b].0);
            }
            assert forall|k: int| #![trigger after[k]] 0 <= k < after.len() implies m2.contains_key(
                after[k].0,
            ) && m2[after[k].0] == after[k].1 by {
                if k < j {
                    assert(before[k] == after[k]);
                    assert(before[k].0 != before[j as int].0);
                } else if k > j {
                    assert(before[k] == after[k]);
                    assert(before[j as int].0 != before[k].0);
                }
            }
            assert forall|k: ExternalScrollId| #[trigger] m2.contains_key(k) implies exists|a: int|
                0 <= a < after.len() && after[a].0 == k by {
                if k == id {
                    assert(after[j as int].0 == k);
                } else {
                    let a = choose|a: int| 0 <= a < before.len() && before[a].0 == k;
                    assert(after[a].0 == k);
                }
            }
            return;
        }
        j = j + 1;
    }
    states.push((id, info));
    let ghost after = states@;
    let ghost m2 = m.insert(id, info);
    assert forall|a: int, b: int|
        #![trigger after[a], after[b]]
        0 <= a < b < after.len() implies after[a].0 != after[b].0 by {
        if b < before.len() {
            assert(before[a].0 != before[b].0);
        } else {
            assert(before[a].0 != id);
        }
    }
    assert forall|k: int| #![trigger after[k]] 0 <= k < after.len() implies m2.contains_key(
        after[k].0,
    ) && m2[after[k].0] == after[k].1 by {
        if k < before.len() {
            assert(before[k] == after[k]);
            assert(before[k].0 != id);
        }
    }
    assert forall|k: ExternalScrollId| #[trigger] m2.contains_key(k) implies exists|a: int|
        0 <= a < after.len() && after[a].0 == k by {
        if k == id {
            assert(after[before.len() as int].0 == k);
        } else {
            let a = choose|a: int| 0 <= a < before.len() && before[a].0 == k;
            assert(after[a].0 == k);
        }
    }
}

/// The order in which an update visits the subtree of node `i`: the node,
/// then the subtrees of its children in order.
pub open spec fn subtree_order<O>(nodes: Seq<SpatialNode<O>>, i: int) -> Seq<SpatialNodeIndex>
    decreases nodes.len() - i, 1int, 0int,
{
    if 0 <= i < nodes.len() {
        seq![SpatialNodeIndex(i as u32)] + children_order(nodes, i, nodes[i].children@.len() as int)
    } else {
        Seq::empty()
    }
}

/// The subtrees of the first `k` children of node `i`, one after another.
pub open spec fn children_order<O>(nodes: Seq<SpatialNode<O>>, i: int, k: int) -> Seq<SpatialNodeIndex>
    decreases nodes.len() - i, 0int, k,
{
    if k <= 0 || !(0 <= i < nodes.len()) || k > nodes[i].children@.len() {
        Seq::empty()
    } else {
        let c = index_of(nodes[i].children@[k - 1]);
        children_order(nodes, i, k - 1) + if i < c < nodes.len() {
            subtree_order(nodes, c)
        } else {
            Seq::empty()
        }
    }
}

/// The value of the first pair from position `j` on whose key is `id`.
pub open spec fn first_value_from<V>(pairs: Seq<(ExternalScrollId, V)>, id: ExternalScrollId, j: int) -> Option<V>
    decreases pairs.len() - j,
{
    if j < 0 || j >= pairs.len() {
        None
    } else if pairs[j].0 == id {
        Some(pairs[j].1)
    } else {
        first_value_from(pairs, id, j + 1)
    }
}

/// The value kept for `id` in a list of pairs: that of the first pair with it.
pub open spec fn value_for<V>(pairs: Seq<(ExternalScrollId, V)>, id: ExternalScrollId) -> Option<V> {
    first_value_from(pairs, id, 0)
}

/// The first node from position `j` on that is a scroll frame with external
/// id `id`.
pub open spec fn first_node_with_id<O>(nodes: Seq<SpatialNode<O>>, id: ExternalScrollId, j: int) -> Option<SpatialNodeIndex>
    decreases nodes.len() - j,
{
    if j < 0 || j >= nodes.len() {
        None
    } else if node_external_scroll_id(nodes[j]) == Some(id) {
        Some(SpatialNodeIndex(j as u32))
    } else {
        first_node_with_id(nodes, id, j + 1)
    }
}

/// A node with its scroll offset replaced, if it is a scroll frame; any other
/// node as it is.
pub open spec fn with_scroll_offset<O>(node: SpatialNode<O>, offset: O) -> SpatialNode<O> {
    match node.node_type {
        SpatialNodeType::ScrollFrame(info) => SpatialNode {
            parent: node.parent,
            children: node.children,
            pipeline_id: node.pipeline_id,
            node_type: SpatialNodeType::ScrollFrame(
                ScrollFrameInfo {
                    external_id: info.external_id,
                    scroll_sensitivity: info.scroll_sensitivity,
                    frame_kind: info.frame_kind,
                    offset,
                },
            ),
        },
        _ => node,
    }
}

/// One thing that finalizing does to a scroll frame. The actions are applied
/// in the order they are listed.
#[derive(Clone, Copy, Debug, PartialEq)]
pub enum ScrollAction<O, P> {
    /// The frame takes over the scroll state that a frame with its external id
    /// had in the previous tree.
    TakeOldState { node: SpatialNodeIndex, old_state: ScrollFrameInfo<O> },
    /// The frame is scrolled by the request that waited for its external id.
    ApplyRequest { node: SpatialNodeIndex, request: P },
}

/// The node that an action is for.
pub open spec fn action_node<O, P>(action: ScrollAction<O, P>) -> SpatialNodeIndex {
    match action {
        ScrollAction::TakeOldState { node, .. } => node,
        ScrollAction::ApplyRequest { node, .. } => node,
    }
}

/// The actions of finalizing one scroll frame: it first takes over the old
/// state for its id, if there is one, and then the request waiting for its
/// id, if there is one, so that the request wins.
pub open spec fn frame_actions<O, P>(
    node: SpatialNodeIndex,
    old_state: Option<ScrollFrameInfo<O>>,
    request: Option<P>,
) -> Seq<ScrollAction<O, P>> {
    let take = match old_state {
        Some(state) => seq![ScrollAction::TakeOldState { node, old_state: state }],
        None => Seq::empty(),
    };
    let apply = match request {
        Some(r) => seq![ScrollAction::ApplyRequest { node, request: r }],
        None => Seq::empty(),
    };
    take + apply
}

/// The actions of finalizing the first `n` nodes against the previous tree's
/// scroll states and the pending requests, and the requests left pending:
/// each scroll frame with an external id, in node order, takes the previous
/// state for its id and then the request waiting for its id, which is then no
/// longer pending.
pub open spec fn finalize_plan<O, P>(
    nodes: Seq<SpatialNode<O>>,
    old_states: Seq<(ExternalScrollId, ScrollFrameInfo<O>)>,
    pending: Map<ExternalScrollId, P>,
    n: int,
) -> (Seq<ScrollAction<O, P>>, Map<ExternalScrollId, P>)
    decreases n,
{
    if n <= 0 || n > nodes.len() {
        (Seq::empty(), pending)
    } else {
        let prev = finalize_plan(nodes, old_states, pending, n - 1);
        match node_external_scroll_id(nodes[n - 1]) {
            Some(id) => (
                prev.0 + frame_actions(
                    SpatialNodeIndex((n - 1) as u32),
                    value_for(old_states, id),
                    if prev.1.contains_key(id) {
                        Some(prev.1[id])
                    } else {
                        None
                    },
                ),
                prev.1.remove(id),
            ),
            None => prev,
        }
    }
}

/// The value kept for an external id, if any.
fn lookup_entry<V: Copy>(pairs: &Vec<(ExternalScrollId, V)>, id: ExternalScrollId) -> (res: Option<V>)
    ensures
        res == value_for(pairs@, id),
{
    let mut j: usize = 0;
    while j < pairs.len()
        invariant
            j <= pairs@.len(),
            value_for(pairs@, id) == first_value_from(pairs@, id, j as int),
        decreases pairs@.len() - j,
    {
        if pairs[j].0 == id {
            return Some(pairs[j].1);
        }
        j = j + 1;
    }
    None
}

/// Removes the value kept for an external id and returns it, if there was one.
fn remove_entry<V>(
    pairs: &mut Vec<(ExternalScrollId, V)>,
    id: ExternalScrollId,
    Ghost(m): Ghost<Map<ExternalScrollId, V>>,
) -> (res: Option<V>)
    requires
        represents(old(pairs)@, m),
    ensures
        represents(final(pairs)@, m.remove(id)),
        res == if m.contains_key(id) {
            Some(m[id])
        } else {
            None::<V>
        },
{
    let ghost before = pairs@;
    let mut j: usize = 0;
    while j < pairs.len()
        invariant
            pairs@ == before,
            represents(before, m),
            j <= before.len(),
            forall|a: int| 0 <= a < j ==> before[a].0 != id,
        decreases before.len() - j,
    {
        if pairs[j].0 == id {
            let (_, value) = pairs.remove(j);
            let ghost after = pairs@;
            let ghost m2 = m.remove(id);
            assert forall|a: int, b: int|
                #![trigger after[a], after[b]]
                0 <= a < b < after.len() implies after[a].0 != after[b].0 by {
                let a0 = if a < j { a } else { a + 1 };
                let b0 = if b < j { b } else { b + 1 };
                assert(after[a] == before[a0]);
                assert(after[b] == before[b0]);
                assert(before[a0].0 != before[b0].0);
            }
            assert forall|k: int| #![trigger after[k]] 0 <= k < after.len() implies m2.contains_key(
                after[k].0,
            ) && m2[after[k].0] == after[k].1 by {
                let k0 = if k < j { k } else { k + 1 };
                assert(after[k] == before[k0]);
                if k0 < j {
                    assert(before[k0].0 != before[j as int].0);
                } else {
                    assert(before[j as int].0 != before[k0].0);
                }
            }
            assert forall|k: ExternalScrollId| #[trigger] m2.contains_key(k) implies exists|a: int|
                0 <= a < after.len() && after[a].0 == k by {
                let a0 = choose|a: int| 0 <= a < before.len() && before[a].0 == k;
                assert(a0 != j);
                if a0 < j {
                    assert(after[a0] == before[a0]);
                } else {
                    assert(after[a0 - 1] == before[a0]);
                }
            }
            assert(m.contains_key(id) && m[id] == before[j as int].1);
            return Some(value);
        }
        j = j + 1;
    }
    assert(!m.contains_key(id));
    assert(pairs@.len() == before.len());
    assert(m.remove(id) =~= m);
    None
}

/// The spatial tree of a scene.
pub struct ClipScrollTree<O, P> {
    /// Nodes which determine the positions of primitives and clips.
    spatial_nodes: Vec<SpatialNode<O>>,
    /// The pipelines whose state is dropped the next time the tree is drained.
    pipelines_to_discard: Vec<PipelineId>,
    /// Scroll requests for external ids that no node had when they came, kept
    /// until a node with that id is finalized.
    pending_scroll_offsets: Vec<(ExternalScrollId, P)>,
    /// The pending requests by external id.
    pending_view: Ghost<Map<ExternalScrollId, P>>,
}

impl<O: Copy, P> ClipScrollTree<O, P> {
    /// The spatial nodes of the tree, by index.
    pub closed spec fn nodes(&self) -> Seq<SpatialNode<O>> {
        self.spatial_nodes@
    }

    /// The pipelines marked to be discarded at the next drain.
    pub closed spec fn discarded(&self) -> Set<PipelineId> {
        self.pipelines_to_discard@.to_set()
    }

    /// The scroll requests waiting for a node with their external id.
    pub closed spec fn pending(&self) -> Map<ExternalScrollId, P> {
        self.pending_view@
    }

    pub closed spec fn wf(&self) -> bool {
        &&& parents_precede(self.spatial_nodes@)
        &&& represents(self.pending_scroll_offsets@, self.pending_view@)
    }

    /// In a tree, parents come before their children.
    pub proof fn lemma_parents_precede(&self)
        requires
            self.wf(),
        ensures
            parents_precede(self.nodes()),
    {
    }

    pub fn new() -> (res: ClipScrollTree<O, P>)
        ensures
            res.wf(),
            well_formed_nodes(res.nodes()),
            res.nodes().len() == 0,
            res.discarded() == Set::<PipelineId>::empty(),
            res.pending() == Map::<ExternalScrollId, P>::empty(),
    {
        let res = ClipScrollTree {
            spatial_nodes: Vec::new(),
            pipelines_to_discard: Vec::new(),
            pending_scroll_offsets: Vec::new(),
            pending_view: Ghost(Map::empty()),
        };
        assert(res.pipelines_to_discard@.to_set() =~= Set::<PipelineId>::empty());
        res
    }

    /// Appends a node as it is and records it as the last child of its parent.
    /// A tree whose nodes were all added without children of their own stays
    /// well formed.
    pub fn add_spatial_node(&mut self, node: SpatialNode<O>) -> (res: SpatialNodeIndex)
        requires
            old(self).wf(),
            old(self).nodes().len() < u32::MAX,
            node.parent matches Some(p) ==> index_of(p) < old(self).nodes().len(),
        ensures
            final(self).wf(),
            index_of(res) == old(self).nodes().len(),
            appended_node(old(self).nodes(), final(self).nodes(), node),
            final(self).discarded() == old(self).discarded(),
            final(self).pending() == old(self).pending(),
            well_formed_nodes(old(self).nodes()) && node.children@.len() == 0 ==> well_formed_nodes(
                final(self).nodes(),
            ),
            children_follow(old(self).nodes()) && (forall|k: int|
                0 <= k < node.children@.len() ==> old(self).nodes().len() < index_of(
                    #[trigger] node.children@[k],
                )) ==> children_follow(final(self).nodes()),
    {
        let ghost old_nodes = self.spatial_nodes@;
        let ghost n = old_nodes.len();
        let index = SpatialNodeIndex::new(self.spatial_nodes.len());
        if let Some(parent_index) = node.parent {
            self.spatial_nodes[parent_index.0 as usize].children.push(index);
        }
        self.spatial_nodes.push(node);
        proof {
            let new_nodes = self.spatial_nodes@;
            assert(appended_node(old_nodes, new_nodes, node));
            assert forall|i: int|
                #![trigger new_nodes[i].parent]
                0 <= i < new_nodes.len() implies match new_nodes[i].parent {
                Some(p) => index_of(p) < i,
                None => true,
            } by {
                if i < n {
                    assert(new_nodes[i].parent == old_nodes[i].parent);
                }
            }
            if children_follow(old_nodes) && (forall|k: int|
                0 <= k < node.children@.len() ==> n < index_of(#[trigger] node.children@[k])) {
                assert forall|i: int, k: int|
                    #![trigger new_nodes[i].children@[k]]
                    0 <= i < new_nodes.len() && 0 <= k < new_nodes[i].children@.len() implies i
                    < index_of(new_nodes[i].children@[k]) by {
                    if i < n && k < old_nodes[i].children@.len() {
                        assert(new_nodes[i].children@[k] == old_nodes[i].children@[k]);
                    }
                }
            }
            if well_formed_nodes(old_nodes) && node.children@.len() == 0 {
                self.lemma_add_keeps_well_formed(old_nodes, node);
            }
        }
        index
    }

    /// Appending a node without children of its own, and listing it as the last
    /// child of its parent, keeps a list of nodes well formed.
    proof fn lemma_add_keeps_well_formed(&self, old_nodes: Seq<SpatialNode<O>>, node: SpatialNode<O>)
        requires
            well_formed_nodes(old_nodes),
            old_nodes.len() < u32::MAX,
            node.children@.len() == 0,
            node.parent matches Some(p) ==> index_of(p) < old_nodes.len(),
            appended_node(old_nodes, self.spatial_nodes@, node),
        ensures
            well_formed_nodes(self.spatial_nodes@),
    {
        let n = old_nodes.len();
        let new_nodes = self.spatial_nodes@;
        {
            assert forall|i: int|
                #![trigger new_nodes[i].parent]
                0 <= i < new_nodes.len() implies match new_nodes[i].parent {
                Some(p) => {
                    &&& index_of(p) < i
                    &&& new_nodes[index_of(p)].children@.contains(SpatialNodeIndex(i as u32))
                },
                None => true,
            } by {
                if i < n {
                    assert(new_nodes[i].parent == old_nodes[i].parent);
                    if let Some(p) = old_nodes[i].parent {
                        let pc = old_nodes[index_of(p)].children@;
                        assert(pc.contains(SpatialNodeIndex(i as u32)));
                        let k = choose|k: int| 0 <= k < pc.len() && pc[k] == SpatialNodeIndex(i as u32);
                        assert(new_nodes[index_of(p)].children@[k] == SpatialNodeIndex(i as u32));
                    }
                } else {
                    if let Some(p) = node.parent {
                        let pc = new_nodes[index_of(p)].children@;
                        assert(pc[pc.len() - 1] == SpatialNodeIndex(i as u32));
                    }
                }
            }
            assert forall|i: int, k: int|
                #![trigger new_nodes[i].children@[k]]
                0 <= i < new_nodes.len() && 0 <= k < new_nodes[i].children@.len() implies {
                let c = index_of(new_nodes[i].children@[k]);
                &&& i < c < new_nodes.len()
                &&& new_nodes[c].parent == Some(SpatialNodeIndex(i as u32))
            } by {
                if i < n && k < old_nodes[i].children@.len() {
                    assert(new_nodes[i].children@[k] == old_nodes[i].children@[k]);
                }
            }
            assert forall|i: int, k1: int, k2: int|
                #![trigger new_nodes[i].children@[k1], new_nodes[i].children@[k2]]
                0 <= i < new_nodes.len() && 0 <= k1 < k2 < new_nodes[i].children@.len()
                implies index_of(new_nodes[i].children@[k1]) < index_of(new_nodes[i].children@[k2]) by {
                if i < n {
                    assert(new_nodes[i].children@[k1] == old_nodes[i].children@[k1]);
                    if k2 < old_nodes[i].children@.len() {
                        assert(new_nodes[i].children@[k2] == old_nodes[i].children@[k2]);
                    }
                }
            }
        }
    }

    /// Adds a scroll frame under `parent_index`, with its content scrolled by
    /// `offset`, and returns its index.
    pub fn add_scroll_frame(
        &mut self,
        parent_index: SpatialNodeIndex,
        external_id: Option<ExternalScrollId>,
        pipeline_id: PipelineId,
        scroll_sensitivity: ScrollSensitivity,
        frame_kind: ScrollFrameKind,
        offset: O,
    ) -> (res: SpatialNodeIndex)
        requires
            old(self).wf(),
            old(self).nodes().len() < u32::MAX,
            index_of(parent_index) < old(self).nodes().len(),
        ensures
            final(self).wf(),
            index_of(res) == old(self).nodes().len(),
            appended_node(
                old(self).nodes(),
                final(self).nodes(),
                (SpatialNode {
                    parent: Some(parent_index),
                    children: final(self).nodes()[index_of(res)].children,
                    pipeline_id,
                    node_type: SpatialNodeType::ScrollFrame(
                        ScrollFrameInfo { external_id, scroll_sensitivity, frame_kind, offset },
                    ),
                }),
            ),
            final(self).nodes()[index_of(res)].children@.len() == 0,
            final(self).discarded() == old(self).discarded(),
            final(self).pending() == old(self).pending(),
            well_formed_nodes(old(self).nodes()) ==> well_formed_nodes(final(self).nodes()),
            children_follow(old(self).nodes()) ==> children_follow(final(self).nodes()),
    {
        let node = SpatialNode::new_scroll_frame(
            pipeline_id,
            parent_index,
            external_id,
            scroll_sensitivity,
            frame_kind,
            offset,
        );
        self.add_spatial_node(node)
    }

    /// Adds a reference frame under `parent_index`, or as a root where there
    /// is none, and returns its index.
    pub fn add_reference_frame(
        &mut self,
        parent_index: Option<SpatialNodeIndex>,
        transform_style: TransformStyle,
        source_transform: SourceTransform,
        kind: ReferenceFrameKind,
        pipeline_id: PipelineId,
    ) -> (res: SpatialNodeIndex)
        requires
            old(self).wf(),
            old(self).nodes().len() < u32::MAX,
            parent_index matches Some(p) ==> index_of(p) < old(self).nodes().len(),
        ensures
            final(self).wf(),
            index_of(res) == old(self).nodes().len(),
            appended_node(
                old(self).nodes(),
                final(self).nodes(),
                (SpatialNode {
                    parent: parent_index,
                    children: final(self).nodes()[index_of(res)].children,
                    pipeline_id,
                    node_type: SpatialNodeType::ReferenceFrame(
                        ReferenceFrameInfo { source_transform, transform_style, kind },
                    ),
                }),
            ),
            final(self).nodes()[index_of(res)].children@.len() == 0,
            final(self).discarded() == old(self).discarded(),
            final(self).pending() == old(self).pending(),
            well_formed_nodes(old(self).nodes()) ==> well_formed_nodes(final(self).nodes()),
            children_follow(old(self).nodes()) ==> children_follow(final(self).nodes()),
    {
        let node = SpatialNode::new_reference_frame(
            parent_index,
            transform_style,
            source_transform,
            kind,
            pipeline_id,
        );
        self.add_spatial_node(node)
    }

    /// Adds a sticky frame under `parent_index` and returns its index.
    pub fn add_sticky_frame(
        &mut self,
        parent_index: SpatialNodeIndex,
        pipeline_id: PipelineId,
    ) -> (res: SpatialNodeIndex)
        requires
            old(self).wf(),
            old(self).nodes().len() < u32::MAX,
            index_of(parent_index) < old(self).nodes().len(),
        ensures
            final(self).wf(),
            index_of(res) == old(self).nodes().len(),
            appended_node(
                old(self).nodes(),
                final(self).nodes(),
                (SpatialNode {
                    parent: Some(parent_index),
                    children: final(self).nodes()[index_of(res)].children,
                    pipeline_id,
                    node_type: SpatialNodeType::StickyFrame,
                }),
            ),
            final(self).nodes()[index_of(res)].children@.len() == 0,
            final(self).discarded() == old(self).discarded(),
            final(self).pending() == old(self).pending(),
            well_formed_nodes(old(self).nodes()) ==> well_formed_nodes(final(self).nodes()),
            children_follow(old(self).nodes()) ==> children_follow(final(self).nodes()),
    {
        let node = SpatialNode::new_sticky_frame(parent_index, pipeline_id);
        self.add_spatial_node(node)
    }

    /// Whether a node is `parent_spatial_node_index` or lies below it.
    pub fn is_same_or_child_of(
        &self,
        spatial_node_index: SpatialNodeIndex,
        parent_spatial_node_index: SpatialNodeIndex,
    ) -> (res: bool)
        requires
            self.wf(),
            spatial_node_index == parent_spatial_node_index || index_of(spatial_node_index)
                < self.nodes().len(),
        ensures
            res == is_same_or_descendant(
                self.nodes(),
                index_of(spatial_node_index),
                index_of(parent_spatial_node_index),
            ),
    {
        let ghost nodes = self.spatial_nodes@;
        let ghost start = index_of(spatial_node_index);
        let ghost target = index_of(parent_spatial_node_index);
        let mut index = spatial_node_index;
        loop
            invariant
                nodes == self.spatial_nodes@,
                parents_precede(nodes),
                target == index_of(parent_spatial_node_index),
                start == index_of(spatial_node_index),
                index == parent_spatial_node_index || index_of(index) < nodes.len(),
                is_same_or_descendant(nodes, start, target) == is_same_or_descendant(
                    nodes,
                    index_of(index),
                    target,
                ),
            decreases index_of(index),
        {
            if index == parent_spatial_node_index {
                return true;
            }
            assert(nodes[index_of(index)].parent == self.spatial_nodes[index.0 as int].parent);
            index = match self.spatial_nodes[index.0 as usize].parent {
                Some(parent) => parent,
                None => return false,
            };
        }
    }

    /// The root reference frame, the root of the tree.
    pub fn root_reference_frame_index(&self) -> (res: SpatialNodeIndex)
        requires
            self.nodes().len() > 0,
        ensures
            res == SpatialNodeIndex(ROOT_SPATIAL_NODE_INDEX),
    {
        SpatialNodeIndex(ROOT_SPATIAL_NODE_INDEX)
    }

    /// The root scroll node, the first child of the root reference frame.
    pub fn topmost_scroll_node_index(&self) -> (res: SpatialNodeIndex)
        requires
            self.nodes().len() >= 1,
        ensures
            res == SpatialNodeIndex(TOPMOST_SCROLL_NODE_INDEX),
    {
        SpatialNodeIndex(TOPMOST_SCROLL_NODE_INDEX)
    }

    /// The nearest node at or above `index` that input events scroll; the
    /// topmost scroll node if there is none or no node is given.
    pub fn find_nearest_scrolling_ancestor(&self, index: Option<SpatialNodeIndex>) -> (res:
        SpatialNodeIndex)
        requires
            self.wf(),
            self.nodes().len() >= 1,
            index matches Some(i) ==> index_of(i) < self.nodes().len(),
        ensures
            index_of(res) == nearest_scrolling_ancestor(self.nodes(), index),
    {
        let ghost nodes = self.spatial_nodes@;
        let mut current = index;
        loop
            invariant
                nodes == self.spatial_nodes@,
                parents_precede(nodes),
                nodes.len() >= 1,
                current matches Some(i) ==> index_of(i) < nodes.len(),
                nearest_scrolling_ancestor(nodes, index) == nearest_scrolling_ancestor(
                    nodes,
                    current,
                ),
            decreases
                match current {
                    Some(i) => index_of(i) + 1,
                    None => 0,
                },
        {
            let i = match current {
                Some(i) => i,
                None => return self.topmost_scroll_node_index(),
            };
            let node = &self.spatial_nodes[i.0 as usize];
            assert(nodes[index_of(i)] == *node);
            match node.node_type {
                SpatialNodeType::ScrollFrame(state) => {
                    if state.sensitive_to_input_events() {
                        return i;
                    }
                },
                _ => {},
            }
            current = node.parent;
        }
    }

    /// Whether the node is certainly placed by the identity transform. This is
    /// conservative: animated transforms, explicit scroll frames and sticky
    /// frames on the way to the root count as not the identity.
    pub fn node_is_identity(&self, spatial_node_index: SpatialNodeIndex) -> (res: bool)
        requires
            self.wf(),
            identity_walk_defined(self.nodes(), index_of(spatial_node_index)),
        ensures
            res == path_is_identity(self.nodes(), index_of(spatial_node_index)),
    {
        let ghost nodes = self.spatial_nodes@;
        let ghost start = index_of(spatial_node_index);
        let mut current = spatial_node_index;
        while current.0 != ROOT_SPATIAL_NODE_INDEX
            invariant
                nodes == self.spatial_nodes@,
                parents_precede(nodes),
                start == index_of(spatial_node_index),
                identity_walk_defined(nodes, index_of(current)),
                path_is_identity(nodes, start) == path_is_identity(nodes, index_of(current)),
            decreases index_of(current),
        {
            let node = &self.spatial_nodes[current.0 as usize];
            assert(nodes[index_of(current)] == *node);
            match node.node_type {
                SpatialNodeType::ReferenceFrame(info) => {
                    match info.source_transform {
                        SourceTransform::Value { is_identity } => {
                            if !is_identity {
                                return false;
                            }
                        },
                        SourceTransform::Binding => {
                            return false;
                        },
                    }
                },
                SpatialNodeType::ScrollFrame(info) => {
                    match info.frame_kind {
                        ScrollFrameKind::Explicit => {
                            return false;
                        },
                        ScrollFrameKind::PipelineRoot => {},
                    }
                },
                SpatialNodeType::StickyFrame => {
                    return false;
                },
            }
            current = match node.parent {
                Some(parent) => parent,
                None => {
                    assert(false);
                    return false;
                },
            };
        }
        true
    }

    /// Whether a pipeline is marked to be discarded.
    fn is_discarded(&self, pipeline_id: PipelineId) -> (res: bool)
        ensures
            res == self.discarded().contains(pipeline_id),
    {
        let mut i: usize = 0;
        while i < self.pipelines_to_discard.len()
            invariant
                i <= self.pipelines_to_discard@.len(),
                forall|j: int| 0 <= j < i ==> self.pipelines_to_discard@[j] != pipeline_id,
            decreases self.pipelines_to_discard@.len() - i,
        {
            if self.pipelines_to_discard[i] == pipeline_id {
                assert(self.pipelines_to_discard@.contains(pipeline_id));
                return true;
            }
            i = i + 1;
        }
        false
    }

    /// Marks a pipeline so that the next drain drops the state of its nodes.
    pub fn discard_frame_state_for_pipeline(&mut self, pipeline_id: PipelineId)
        requires
            old(self).wf(),
        ensures
            final(self).wf(),
            final(self).nodes() == old(self).nodes(),
            final(self).discarded() == old(self).discarded().insert(pipeline_id),
            final(self).pending() == old(self).pending(),
    {
        let ghost before = self.pipelines_to_discard@;
        if !self.is_discarded(pipeline_id) {
            self.pipelines_to_discard.push(pipeline_id);
            assert forall|x: PipelineId| #[trigger] self.pipelines_to_discard@.contains(x) <==> (
            before.contains(x) || x == pipeline_id) by {
                if before.contains(x) {
                    let k = choose|k: int| 0 <= k < before.len() && before[k] == x;
                    assert(self.pipelines_to_discard@[k] == x);
                }
                if x == pipeline_id {
                    assert(self.pipelines_to_discard@[before.len() as int] == x);
                }
                if self.pipelines_to_discard@.contains(x) && x != pipeline_id {
                    let k = choose|k: int|
                        0 <= k < self.pipelines_to_discard@.len() && self.pipelines_to_discard@[k]
                            == x;
                    assert(before[k] == x);
                }
            }
        }
        assert(self.pipelines_to_discard@.to_set() =~= before.to_set().insert(pipeline_id));
    }

    /// The external id and scroll offset of each scroll frame that has an
    /// external id, in node order.
    pub fn get_scroll_node_state(&self) -> (res: Vec<ScrollNodeState<O>>)
        ensures
            res@ == scroll_node_states(self.nodes(), self.nodes().len() as int),
    {
        let mut result: Vec<ScrollNodeState<O>> = Vec::new();
        let mut i: usize = 0;
        while i < self.spatial_nodes.len()
            invariant
                i <= self.spatial_nodes@.len(),
                result@ == scroll_node_states(self.spatial_nodes@, i as int),
            decreases self.spatial_nodes@.len() - i,
        {
            let node = &self.spatial_nodes[i];
            match node.node_type {
                SpatialNodeType::ScrollFrame(info) => {
                    match info.external_id {
                        Some(id) => result.push(ScrollNodeState { id, scroll_offset: info.offset }),
                        None => {},
                    }
                },
                _ => {},
            }
            i = i + 1;
        }
        result
    }

    /// Empties the tree and returns, for each external id, the scroll frame
    /// information of the last node with that id whose pipeline was not marked
    /// for discarding. The marks are cleared.
    pub fn drain(&mut self) -> (res: ScrollStates<O>)
        requires
            old(self).wf(),
        ensures
            final(self).wf(),
            final(self).nodes().len() == 0,
            final(self).discarded() == Set::<PipelineId>::empty(),
            final(self).pending() == old(self).pending(),
            represents(
                res@,
                scroll_states_of(old(self).nodes(), old(self).discarded(), old(self).nodes().len() as int),
            ),
    {
        let ghost nodes = self.spatial_nodes@;
        let ghost discarded = self.discarded();
        let mut scroll_states: ScrollStates<O> = Vec::new();
        let mut i: usize = 0;
        while i < self.spatial_nodes.len()
            invariant
                nodes == self.spatial_nodes@,
                discarded == self.discarded(),
                i <= nodes.len(),
                represents(scroll_states@, scroll_states_of(nodes, discarded, i as int)),
            decreases nodes.len() - i,
        {
            let ghost m = scroll_states_of(nodes, discarded, i as int);
            let node = &self.spatial_nodes[i];
            if !self.is_discarded(node.pipeline_id) {
                match node.node_type {
                    SpatialNodeType::ScrollFrame(info) => {
                        match info.external_id {
                            Some(id) => insert_entry(&mut scroll_states, id, info, Ghost(m)),
                            None => {},
                        }
                    },
                    _ => {},
                }
            }
            i = i + 1;
        }
        self.spatial_nodes.clear();
        self.pipelines_to_discard.clear();
        assert(self.pipelines_to_discard@.to_set() =~= Set::<PipelineId>::empty());
        scroll_states
    }

    /// Appends the update order of the subtree of node `i` to `out`.
    fn collect_subtree(&self, i: usize, out: &mut Vec<SpatialNodeIndex>)
        requires
            self.wf(),
            children_follow(self.nodes()),
            i < self.nodes().len(),
        ensures
            final(out)@ == old(out)@ + subtree_order(self.nodes(), i as int),
        decreases self.nodes().len() - i,
    {
        let ghost nodes = self.spatial_nodes@;
        let ghost start = old(out)@;
        out.push(SpatialNodeIndex(i as u32));
        let node = &self.spatial_nodes[i];
        let ghost n = node.children@.len();
        let mut k: usize = 0;
        while k < node.children.len()
            invariant
                self.wf(),
                children_follow(nodes),
                nodes == self.spatial_nodes@,
                *node == nodes[i as int],
                n == node.children@.len(),
                i < nodes.len(),
                k <= n,
                out@ == start + seq![SpatialNodeIndex(i as u32)] + children_order(nodes, i as int, k as int),
            decreases n - k,
        {
            let c = node.children[k].0 as usize;
            assert(nodes[i as int].children@[k as int] == node.children@[k as int]);
            if c < self.spatial_nodes.len() {
                self.collect_subtree(c, out);
            }
            k = k + 1;
            assert(out@ == start + seq![SpatialNodeIndex(i as u32)] + children_order(nodes, i as int, k as int));
        }
        assert(out@ == start + subtree_order(nodes, i as int));
    }

    /// The order in which a tree update visits the nodes: the root reference
    /// frame first, then each node before the subtrees of its children, which
    /// come in the order they are listed; a listed child that is not in the
    /// tree is passed over. Nothing is visited in an empty tree.
    pub fn update_order(&self) -> (res: Vec<SpatialNodeIndex>)
        requires
            self.wf(),
            children_follow(self.nodes()),
        ensures
            res@ == if self.nodes().len() == 0 {
                Seq::<SpatialNodeIndex>::empty()
            } else {
                subtree_order(self.nodes(), ROOT_SPATIAL_NODE_INDEX as int)
            },
    {
        let mut order: Vec<SpatialNodeIndex> = Vec::new();
        if self.spatial_nodes.len() == 0 {
            return order;
        }
        self.collect_subtree(ROOT_SPATIAL_NODE_INDEX as usize, &mut order);
        assert(order@ =~= subtree_order(self.nodes(), ROOT_SPATIAL_NODE_INDEX as int));
        order
    }

    /// Decides where a scroll request for external id `id` goes: the first
    /// node that is a scroll frame with that id, which the caller scrolls and
    /// stores with `set_scroll_offset`; or,
    /// if there is none, the request is kept pending for that id, replacing
    /// any earlier one.
    pub fn scroll_node(&mut self, id: ExternalScrollId, request: P) -> (res: Option<SpatialNodeIndex>)
        requires
            old(self).wf(),
        ensures
            final(self).wf(),
            final(self).nodes() == old(self).nodes(),
            final(self).discarded() == old(self).discarded(),
            res == first_node_with_id(old(self).nodes(), id, 0),
            res is Some ==> final(self).pending() == old(self).pending(),
            res is None ==> final(self).pending() == old(self).pending().insert(id, request),
    {
        let ghost nodes = self.spatial_nodes@;
        let mut i: usize = 0;
        while i < self.spatial_nodes.len()
            invariant
                nodes == self.spatial_nodes@,
                self.wf(),
                self.pending() == old(self).pending(),
                self.discarded() == old(self).discarded(),
                i <= nodes.len(),
                first_node_with_id(nodes, id, 0) == first_node_with_id(nodes, id, i as int),
            decreases nodes.len() - i,
        {
            let matches = match self.spatial_nodes[i].node_type {
                SpatialNodeType::ScrollFrame(info) => match info.external_id {
                    Some(node_id) => node_id == id,
                    None => false,
                },
                _ => false,
            };
            if matches {
                return Some(SpatialNodeIndex(i as u32));
            }
            i = i + 1;
        }
        insert_entry(&mut self.pending_scroll_offsets, id, request, Ghost(self.pending_view@));
        self.pending_view = Ghost(self.pending_view@.insert(id, request));
        None
    }

    /// The node that a scroll at `node_index` moves: the nearest node at or
    /// above it that input events scroll, or the topmost scroll node; nothing
    /// in an empty tree.
    pub fn scroll_nearest_scrolling_ancestor(&self, node_index: Option<SpatialNodeIndex>) -> (res:
        Option<SpatialNodeIndex>)
        requires
            self.wf(),
            self.nodes().len() > 0 ==> (node_index matches Some(i) ==> index_of(i)
                < self.nodes().len()),
            self.nodes().len() > 0 ==> nearest_scrolling_ancestor(self.nodes(), node_index)
                < self.nodes().len(),
        ensures
            res == if self.nodes().len() == 0 {
                None
            } else {
                Some(SpatialNodeIndex(nearest_scrolling_ancestor(self.nodes(), node_index) as u32))
            },
    {
        if self.spatial_nodes.len() == 0 {
            return None;
        }
        let index = self.find_nearest_scrolling_ancestor(node_index);
        Some(index)
    }

    /// Decides, for each scroll frame with an external id in node order, that
    /// it first takes over the scroll state for its id in the previous tree's
    /// `old_states` and then the scroll request waiting for its id, which is no
    /// longer pending. The caller applies the actions in the order returned and
    /// stores the offsets that result with `set_scroll_offset`.
    pub fn finalize_and_apply_pending_scroll_offsets(&mut self, old_states: &ScrollStates<O>) -> (res:
        Vec<ScrollAction<O, P>>)
        requires
            old(self).wf(),
        ensures
            final(self).wf(),
            final(self).nodes() == old(self).nodes(),
            final(self).discarded() == old(self).discarded(),
            res@ == finalize_plan(
                old(self).nodes(),
                old_states@,
                old(self).pending(),
                old(self).nodes().len() as int,
            ).0,
            final(self).pending() == finalize_plan(
                old(self).nodes(),
                old_states@,
                old(self).pending(),
                old(self).nodes().len() as int,
            ).1,
    {
        let ghost nodes = self.spatial_nodes@;
        let ghost pending0 = self.pending_view@;
        let mut updates: Vec<ScrollAction<O, P>> = Vec::new();
        let mut i: usize = 0;
        while i < self.spatial_nodes.len()
            invariant
                nodes == self.spatial_nodes@,
                self.wf(),
                self.discarded() == old(self).discarded(),
                pending0 == old(self).pending(),
                i <= nodes.len(),
                updates@ == finalize_plan(nodes, old_states@, pending0, i as int).0,
                self.pending_view@ == finalize_plan(nodes, old_states@, pending0, i as int).1,
            decreases nodes.len() - i,
        {
            let node_type = self.spatial_nodes[i].node_type;
            match node_type {
                SpatialNodeType::ScrollFrame(info) => {
                    match info.external_id {
                        Some(id) => {
                            let old_state = lookup_entry(old_states, id);
                            let pending = remove_entry(
                                &mut self.pending_scroll_offsets,
                                id,
                                Ghost(self.pending_view@),
                            );
                            self.pending_view = Ghost(self.pending_view@.remove(id));
                            let node = SpatialNodeIndex(i as u32);
                            let ghost before = updates@;
                            match old_state {
                                Some(state) => updates.push(
                                    ScrollAction::TakeOldState { node, old_state: state },
                                ),
                                None => {},
                            }
                            match pending {
                                Some(request) => updates.push(
                                    ScrollAction::ApplyRequest { node, request },
                                ),
                                None => {},
                            }
                            assert(updates@ =~= before + frame_actions(node, old_state, pending));
                        },
                        None => {},
                    }
                },
                _ => {},
            }
            i = i + 1;
        }
        updates
    }

    /// Stores a new scroll offset in a scroll frame, as scrolling it or taking
    /// over an old state comes to; returns whether the node is a scroll frame.
    /// Any other node, and every other part of the tree, is left as it is.
    pub fn set_scroll_offset(&mut self, index: SpatialNodeIndex, offset: O) -> (res: bool)
        requires
            old(self).wf(),
            index_of(index) < old(self).nodes().len(),
        ensures
            final(self).wf(),
            final(self).nodes() == old(self).nodes().update(
                index_of(index),
                with_scroll_offset(old(self).nodes()[index_of(index)], offset),
            ),
            res == (old(self).nodes()[index_of(index)].node_type is ScrollFrame),
            final(self).discarded() == old(self).discarded(),
            final(self).pending() == old(self).pending(),
            well_formed_nodes(old(self).nodes()) ==> well_formed_nodes(final(self).nodes()),
            children_follow(old(self).nodes()) ==> children_follow(final(self).nodes()),
    {
        let ghost old_nodes = self.spatial_nodes@;
        let i = index.0 as usize;
        let node_type = self.spatial_nodes[i].node_type;
        let res = match node_type {
            SpatialNodeType::ScrollFrame(info) => {
                self.spatial_nodes[i].node_type = SpatialNodeType::ScrollFrame(
                    ScrollFrameInfo {
                        external_id: info.external_id,
                        scroll_sensitivity: info.scroll_sensitivity,
                        frame_kind: info.frame_kind,
                        offset,
                    },
                );
                true
            },
            _ => false,
        };
        proof {
            let new_nodes = self.spatial_nodes@;
            assert(new_nodes =~= old_nodes.update(i as int, with_scroll_offset(old_nodes[i as int], offset)));
            assert forall|j: int| 0 <= j < new_nodes.len() implies new_nodes[j].parent
                == old_nodes[j].parent && new_nodes[j].children@ == old_nodes[j].children@ by {}
            assert forall|j: int| #![trigger new_nodes[j].parent] 0 <= j < new_nodes.len() implies match new_nodes[j].parent {
                Some(p) => index_of(p) < j,
                None => true,
            } by {
                assert(new_nodes[j].parent == old_nodes[j].parent);
            }
            if well_formed_nodes(old_nodes) {
                assert forall|j: int|
                    #![trigger new_nodes[j].parent]
                    0 <= j < new_nodes.len() implies match new_nodes[j].parent {
                    Some(p) => {
                        &&& index_of(p) < j
                        &&& new_nodes[index_of(p)].children@.contains(SpatialNodeIndex(j as u32))
                    },
                    None => true,
                } by {
                    assert(new_nodes[j].parent == old_nodes[j].parent);
                    if let Some(p) = old_nodes[j].parent {
                        assert(new_nodes[index_of(p)].children@ == old_nodes[index_of(p)].children@);
                    }
                }
                assert forall|j: int, k: int|
                    #![trigger new_nodes[j].children@[k]]
                    0 <= j < new_nodes.len() && 0 <= k < new_nodes[j].children@.len() implies {
                    let c = index_of(new_nodes[j].children@[k]);
                    &&& j < c < new_nodes.len()
                    &&& new_nodes[c].parent == Some(SpatialNodeIndex(j as u32))
                } by {
                    assert(new_nodes[j].children@ == old_nodes[j].children@);
                    let c = index_of(old_nodes[j].children@[k]);
                    assert(new_nodes[c].parent == old_nodes[c].parent);
                }
                assert forall|j: int, k1: int, k2: int|
                    #![trigger new_nodes[j].children@[k1], new_nodes[j].children@[k2]]
                    0 <= j < new_nodes.len() && 0 <= k1 < k2 < new_nodes[j].children@.len()
                    implies index_of(new_nodes[j].children@[k1]) < index_of(new_nodes[j].children@[k2]) by {
                    assert(new_nodes[j].children@ == old_nodes[j].children@);
                }
            }
            if children_follow(old_nodes) {
                assert forall|j: int, k: int|
                    #![trigger new_nodes[j].children@[k]]
                    0 <= j < new_nodes.len() && 0 <= k < new_nodes[j].children@.len() implies j
                    < index_of(new_nodes[j].children@[k]) by {
                    assert(new_nodes[j].children@ == old_nodes[j].children@);
                }
            }
        }
        res
    }
}

} // verus!
