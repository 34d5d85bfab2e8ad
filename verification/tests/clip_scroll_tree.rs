use webrender::clip_scroll_tree::{
    relative_transform_steps, systems_connected, ClipScrollTree, CoordinateSystem, TransformStep, CoordinateSystemId, ScrollFrameInfo, ScrollFrameKind, ScrollNodeState,
    ScrollAction, SourceTransform, SpatialNode, SpatialNodeIndex, VisibleFace,
};

/// Scroll offsets in whole pixels, and scroll requests as a target offset.
type Tree = ClipScrollTree<(i32, i32), (i32, i32)>;
use webrender::display_item::{ReferenceFrameKind, ScrollSensitivity, TransformStyle};
use webrender::ids::{ExternalScrollId, PipelineId};

fn identity_frame(cst: &mut Tree, parent: Option<SpatialNodeIndex>) -> SpatialNodeIndex {
    cst.add_reference_frame(
        parent,
        TransformStyle::Preserve3D,
        SourceTransform::Value { is_identity: true },
        ReferenceFrameKind::Transform,
        PipelineId::dummy(),
    )
}

#[test]
fn index_and_coordinate_system_constructors() {
    assert_eq!(SpatialNodeIndex::new(7), SpatialNodeIndex(7));
    assert_eq!(CoordinateSystemId::root(), CoordinateSystemId(0));
}

#[test]
fn visible_face_default_and_not() {
    assert_eq!(VisibleFace::default(), VisibleFace::Front);
    assert_eq!(!VisibleFace::Front, VisibleFace::Back);
    assert_eq!(!VisibleFace::Back, VisibleFace::Front);
    assert_eq!(!!VisibleFace::Back, VisibleFace::Back);
}

#[test]
fn added_nodes_get_consecutive_indices() {
    let mut cst: Tree = ClipScrollTree::new();
    let root = identity_frame(&mut cst, None);
    let scroll = cst.add_scroll_frame(
        root,
        Some(ExternalScrollId(0, PipelineId::dummy())),
        PipelineId::dummy(),
        ScrollSensitivity::ScriptAndInputEvents,
        ScrollFrameKind::PipelineRoot, (0, 0)
    );
    let sticky = cst.add_sticky_frame(scroll, PipelineId::dummy());
    assert_eq!(root, SpatialNodeIndex(0));
    assert_eq!(scroll, SpatialNodeIndex(1));
    assert_eq!(sticky, SpatialNodeIndex(2));
    assert_eq!(cst.root_reference_frame_index(), SpatialNodeIndex(0));
    assert_eq!(cst.topmost_scroll_node_index(), SpatialNodeIndex(1));
}

#[test]
fn ancestry_follows_parents() {
    let mut cst: Tree = ClipScrollTree::new();
    let root = identity_frame(&mut cst, None);
    let child1 = identity_frame(&mut cst, Some(root));
    let child2 = identity_frame(&mut cst, Some(child1));
    let other = identity_frame(&mut cst, Some(root));
    let second_root = identity_frame(&mut cst, None);

    assert!(cst.is_same_or_child_of(child2, child2));
    assert!(cst.is_same_or_child_of(child2, child1));
    assert!(cst.is_same_or_child_of(child2, root));
    assert!(cst.is_same_or_child_of(other, root));
    assert!(!cst.is_same_or_child_of(root, child1));
    assert!(!cst.is_same_or_child_of(child2, other));
    assert!(!cst.is_same_or_child_of(other, child1));
    assert!(!cst.is_same_or_child_of(second_root, root));
    // A node is the same as itself even when it is not in the tree.
    assert!(cst.is_same_or_child_of(SpatialNodeIndex(40), SpatialNodeIndex(40)));
}

#[test]
fn update_order_is_depth_first() {
    let mut cst: Tree = ClipScrollTree::new();
    assert!(cst.update_order().is_empty());
    let root = identity_frame(&mut cst, None);
    let a = identity_frame(&mut cst, Some(root));
    let b = identity_frame(&mut cst, Some(root));
    let a1 = identity_frame(&mut cst, Some(a));
    let b1 = identity_frame(&mut cst, Some(b));
    let a2 = identity_frame(&mut cst, Some(a));
    let lone_root = identity_frame(&mut cst, None);
    let order = cst.update_order();
    assert_eq!(order, vec![root, a, a1, a2, b, b1]);
    assert!(!order.contains(&lone_root));
}

#[test]
fn nearest_scrolling_ancestor() {
    let p = PipelineId(1, 1);
    let mut cst: Tree = ClipScrollTree::new();
    let root = identity_frame(&mut cst, None);
    let top = cst.add_scroll_frame(
        root,
        Some(ExternalScrollId(0, p)),
        p,
        ScrollSensitivity::ScriptAndInputEvents,
        ScrollFrameKind::PipelineRoot, (0, 0)
    );
    let script_only = cst.add_scroll_frame(
        top,
        Some(ExternalScrollId(5, p)),
        p,
        ScrollSensitivity::Script,
        ScrollFrameKind::Explicit, (0, 0)
    );
    let inner = cst.add_scroll_frame(
        script_only,
        Some(ExternalScrollId(6, p)),
        p,
        ScrollSensitivity::ScriptAndInputEvents,
        ScrollFrameKind::Explicit, (0, 0)
    );
    let leaf = identity_frame(&mut cst, Some(inner));
    let under_script = cst.add_sticky_frame(script_only, p);

    assert_eq!(cst.find_nearest_scrolling_ancestor(Some(leaf)), inner);
    assert_eq!(cst.find_nearest_scrolling_ancestor(Some(inner)), inner);
    assert_eq!(cst.find_nearest_scrolling_ancestor(Some(under_script)), top);
    assert_eq!(cst.find_nearest_scrolling_ancestor(Some(root)), SpatialNodeIndex(1));
    assert_eq!(cst.find_nearest_scrolling_ancestor(None), SpatialNodeIndex(1));
}

#[test]
fn identity_is_judged_on_the_way_to_the_root() {
    let p = PipelineId(2, 2);
    let mut cst: Tree = ClipScrollTree::new();
    let root = identity_frame(&mut cst, None);
    let pipeline_root = cst.add_scroll_frame(
        root,
        Some(ExternalScrollId(0, p)),
        p,
        ScrollSensitivity::ScriptAndInputEvents,
        ScrollFrameKind::PipelineRoot, (0, 0)
    );
    let plain = identity_frame(&mut cst, Some(pipeline_root));
    let moved = cst.add_reference_frame(
        Some(plain),
        TransformStyle::Flat,
        SourceTransform::Value { is_identity: false },
        ReferenceFrameKind::Transform,
        p,
    );
    let animated = cst.add_reference_frame(
        Some(plain),
        TransformStyle::Flat,
        SourceTransform::Binding,
        ReferenceFrameKind::Transform,
        p,
    );
    let explicit = cst.add_scroll_frame(
        plain,
        None,
        p,
        ScrollSensitivity::Script,
        ScrollFrameKind::Explicit, (0, 0)
    );
    let sticky = cst.add_sticky_frame(plain, p);
    let below_moved = identity_frame(&mut cst, Some(moved));

    assert!(cst.node_is_identity(root));
    assert!(cst.node_is_identity(pipeline_root));
    assert!(cst.node_is_identity(plain));
    assert!(!cst.node_is_identity(moved));
    assert!(!cst.node_is_identity(animated));
    assert!(!cst.node_is_identity(explicit));
    assert!(!cst.node_is_identity(sticky));
    assert!(!cst.node_is_identity(below_moved));
}

#[test]
fn scroll_node_ids_in_node_order() {
    let p = PipelineId(3, 1);
    let mut cst: Tree = ClipScrollTree::new();
    let root = identity_frame(&mut cst, None);
    cst.add_scroll_frame(root, Some(ExternalScrollId(0, p)), p, ScrollSensitivity::ScriptAndInputEvents, ScrollFrameKind::PipelineRoot, (0, 0));
    cst.add_scroll_frame(root, None, p, ScrollSensitivity::Script, ScrollFrameKind::Explicit, (0, 0));
    cst.add_sticky_frame(root, p);
    cst.add_scroll_frame(root, Some(ExternalScrollId(9, p)), p, ScrollSensitivity::Script, ScrollFrameKind::Explicit, (3, -4));
    assert_eq!(
        cst.get_scroll_node_state(),
        vec![
            ScrollNodeState { id: ExternalScrollId(0, p), scroll_offset: (0, 0) },
            ScrollNodeState { id: ExternalScrollId(9, p), scroll_offset: (3, -4) },
        ]
    );
}

#[test]
fn drain_keeps_last_state_outside_discarded_pipelines() {
    let kept = PipelineId(1, 1);
    let gone = PipelineId(2, 2);
    let mut cst: Tree = ClipScrollTree::new();
    let root = identity_frame(&mut cst, None);
    cst.add_scroll_frame(root, Some(ExternalScrollId(4, kept)), kept, ScrollSensitivity::Script, ScrollFrameKind::Explicit, (0, 0));
    cst.add_scroll_frame(root, Some(ExternalScrollId(5, gone)), gone, ScrollSensitivity::Script, ScrollFrameKind::Explicit, (0, 0));
    cst.add_scroll_frame(root, Some(ExternalScrollId(4, kept)), kept, ScrollSensitivity::ScriptAndInputEvents, ScrollFrameKind::PipelineRoot, (7, 8));
    cst.add_scroll_frame(root, None, kept, ScrollSensitivity::Script, ScrollFrameKind::Explicit, (0, 0));
    cst.discard_frame_state_for_pipeline(gone);
    cst.discard_frame_state_for_pipeline(gone);

    let states = cst.drain();
    assert_eq!(states.len(), 1);
    assert_eq!(states[0].0, ExternalScrollId(4, kept));
    assert_eq!(
        states[0].1,
        ScrollFrameInfo {
            external_id: Some(ExternalScrollId(4, kept)),
            scroll_sensitivity: ScrollSensitivity::ScriptAndInputEvents,
            frame_kind: ScrollFrameKind::PipelineRoot,
            offset: (7, 8),
        }
    );
    // The tree is empty and the discard marks are gone.
    assert!(cst.update_order().is_empty());
    let root = identity_frame(&mut cst, None);
    assert_eq!(root, SpatialNodeIndex(0));
    cst.add_scroll_frame(root, Some(ExternalScrollId(5, gone)), gone, ScrollSensitivity::Script, ScrollFrameKind::Explicit, (0, 0));
    let again = cst.drain();
    assert_eq!(again.len(), 1);
    assert_eq!(again[0].0, ExternalScrollId(5, gone));
}

#[test]
fn scroll_requests_go_to_the_first_matching_frame_or_wait() {
    let p = PipelineId(1, 1);
    let mut cst: Tree = ClipScrollTree::new();
    let root = identity_frame(&mut cst, None);
    let first = cst.add_scroll_frame(root, Some(ExternalScrollId(2, p)), p, ScrollSensitivity::Script, ScrollFrameKind::Explicit, (0, 0));
    cst.add_scroll_frame(root, Some(ExternalScrollId(2, p)), p, ScrollSensitivity::Script, ScrollFrameKind::Explicit, (0, 0));
    assert_eq!(cst.scroll_node(ExternalScrollId(2, p), (5, 5)), Some(first));
    assert_eq!(cst.scroll_node(ExternalScrollId(3, p), (1, 1)), None);
    assert_eq!(cst.scroll_node(ExternalScrollId(3, p), (9, 9)), None);

    // A frame with the waiting id arrives; finalizing hands it the latest
    // request, once, together with the old state for its id.
    let late = cst.add_scroll_frame(root, Some(ExternalScrollId(3, p)), p, ScrollSensitivity::Script, ScrollFrameKind::Explicit, (0, 0));
    let twin = cst.add_scroll_frame(root, Some(ExternalScrollId(3, p)), p, ScrollSensitivity::Script, ScrollFrameKind::Explicit, (0, 0));
    let old_info = ScrollFrameInfo {
        external_id: Some(ExternalScrollId(3, p)),
        scroll_sensitivity: ScrollSensitivity::Script,
        frame_kind: ScrollFrameKind::Explicit,
        offset: (4, 4),
    };
    let old_states = vec![(ExternalScrollId(3, p), old_info)];
    let actions = cst.finalize_and_apply_pending_scroll_offsets(&old_states);
    // The old state comes first and the waiting request after it, so that
    // the request wins; the twin gets the old state only.
    assert_eq!(
        actions,
        vec![
            ScrollAction::TakeOldState { node: late, old_state: old_info },
            ScrollAction::ApplyRequest { node: late, request: (9, 9) },
            ScrollAction::TakeOldState { node: twin, old_state: old_info },
        ]
    );
    assert_ne!(first, late);
    let again = cst.finalize_and_apply_pending_scroll_offsets(&Vec::new());
    assert!(again.is_empty());
}

#[test]
fn scroll_at_a_node_moves_its_nearest_scrolling_ancestor() {
    let p = PipelineId(1, 1);
    let mut cst: Tree = ClipScrollTree::new();
    assert_eq!(cst.scroll_nearest_scrolling_ancestor(None), None);
    let root = identity_frame(&mut cst, None);
    let top = cst.add_scroll_frame(root, Some(ExternalScrollId(0, p)), p, ScrollSensitivity::ScriptAndInputEvents, ScrollFrameKind::PipelineRoot, (0, 0));
    let leaf = cst.add_sticky_frame(top, p);
    assert_eq!(cst.scroll_nearest_scrolling_ancestor(Some(leaf)), Some(top));
    assert_eq!(cst.scroll_nearest_scrolling_ancestor(None), Some(SpatialNodeIndex(1)));
}

#[test]
fn added_node_keeps_its_own_children_list() {
    let mut cst: Tree = ClipScrollTree::new();
    let root = identity_frame(&mut cst, None);
    let mut node = SpatialNode::new_sticky_frame(root, PipelineId::dummy());
    node.children.push(SpatialNodeIndex(5));
    let index = cst.add_spatial_node(node);
    assert_eq!(index, SpatialNodeIndex(1));
    // Listed children not in the tree are passed over by an update.
    assert_eq!(cst.update_order(), vec![root, index]);
}

#[test]
fn coordinate_system_walk_reaches_the_parent() {
    let systems = vec![
        CoordinateSystem::root(0u8),
        CoordinateSystem { transform: 1u8, is_flatten_root: false, parent: Some(CoordinateSystemId(0)) },
        CoordinateSystem { transform: 2u8, is_flatten_root: true, parent: Some(CoordinateSystemId(1)) },
        CoordinateSystem { transform: 3u8, is_flatten_root: false, parent: Some(CoordinateSystemId(2)) },
    ];
    assert!(systems_connected(&systems, CoordinateSystemId(3), CoordinateSystemId(0)));
    assert!(systems_connected(&systems, CoordinateSystemId(2), CoordinateSystemId(2)));
    assert!(!systems_connected(&systems, CoordinateSystemId(1), CoordinateSystemId(2)));
    assert!(!systems_connected(&systems, CoordinateSystemId(7), CoordinateSystemId(0)));
    assert_eq!(
        relative_transform_steps(&systems, CoordinateSystemId(3), CoordinateSystemId(0)),
        vec![
            TransformStep { system: CoordinateSystemId(3), updates_face: false, flattens: false },
            TransformStep { system: CoordinateSystemId(2), updates_face: true, flattens: true },
            TransformStep { system: CoordinateSystemId(1), updates_face: true, flattens: true },
        ]
    );
    assert!(relative_transform_steps(&systems, CoordinateSystemId(1), CoordinateSystemId(1)).is_empty());
}

#[test]
fn scroll_offsets_survive_a_rebuild() {
    let p = PipelineId(6, 1);
    let id = ExternalScrollId(8, p);
    let mut cst: Tree = ClipScrollTree::new();
    let root = identity_frame(&mut cst, None);
    let frame = cst.add_scroll_frame(root, Some(id), p, ScrollSensitivity::ScriptAndInputEvents, ScrollFrameKind::Explicit, (0, 0));
    let sticky = cst.add_sticky_frame(frame, p);
    assert!(cst.set_scroll_offset(frame, (12, 30)));
    assert!(!cst.set_scroll_offset(sticky, (1, 1)));
    assert_eq!(cst.get_scroll_node_state(), vec![ScrollNodeState { id, scroll_offset: (12, 30) }]);

    // Rebuild: drain, add the same frame again, finalize, apply.
    let states = cst.drain();
    let root = identity_frame(&mut cst, None);
    let frame = cst.add_scroll_frame(root, Some(id), p, ScrollSensitivity::ScriptAndInputEvents, ScrollFrameKind::Explicit, (0, 0));
    for action in cst.finalize_and_apply_pending_scroll_offsets(&states) {
        match action {
            ScrollAction::TakeOldState { node, old_state } => {
                assert_eq!(node, frame);
                cst.set_scroll_offset(node, old_state.offset);
            }
            ScrollAction::ApplyRequest { .. } => unreachable!(),
        }
    }
    assert_eq!(cst.get_scroll_node_state(), vec![ScrollNodeState { id, scroll_offset: (12, 30) }]);
}
