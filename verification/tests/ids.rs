use webrender::ids::{ClipChainId, ClipId, ExternalScrollId, PipelineId, SpatialId};

#[test]
fn pipeline_dummy_is_zero() {
    assert_eq!(PipelineId::dummy(), PipelineId(0, 0));
}

#[test]
fn root_clip_is_root_valid_and_in_pipeline() {
    let p = PipelineId(3, 7);
    let root = ClipId::root(p);
    assert_eq!(root, ClipId::Clip(0, p));
    assert!(root.is_root());
    assert!(root.is_valid());
    assert_eq!(root.pipeline_id(), p);
}

#[test]
fn invalid_clip_is_not_valid() {
    let invalid = ClipId::invalid();
    assert_eq!(invalid, ClipId::Clip(usize::MAX, PipelineId(0, 0)));
    assert!(!invalid.is_valid());
    assert!(!invalid.is_root());
    assert!(ClipId::Clip(5, PipelineId(1, 1)).is_valid());
    assert!(!ClipId::Clip(5, PipelineId(1, 1)).is_root());
}

#[test]
fn clip_chain_ids_are_valid_and_not_root() {
    let p = PipelineId(2, 9);
    let chain = ClipId::ClipChain(ClipChainId(0, p));
    assert!(chain.is_valid());
    assert!(!chain.is_root());
    assert_eq!(chain.pipeline_id(), p);
}

#[test]
fn spatial_id_roots() {
    let p = PipelineId(4, 5);
    let frame = SpatialId::root_reference_frame(p);
    let scroll = SpatialId::root_scroll_node(p);
    assert_eq!(frame, SpatialId::new(0, p));
    assert_eq!(scroll, SpatialId::new(1, p));
    assert!(frame.is_root_reference_frame());
    assert!(!frame.is_root_scroll_node());
    assert!(scroll.is_root_scroll_node());
    assert!(!scroll.is_root_reference_frame());
    assert_eq!(scroll.pipeline_id(), p);
    let other = SpatialId::new(12, p);
    assert_eq!(other, SpatialId::new(12, p));
    assert!(!other.is_root_reference_frame());
    assert!(!other.is_root_scroll_node());
}

#[test]
fn external_scroll_id_root_is_zero() {
    let p = PipelineId(1, 2);
    assert!(ExternalScrollId(0, p).is_root());
    assert!(!ExternalScrollId(3, p).is_root());
    assert_eq!(ExternalScrollId(3, p).pipeline_id(), p);
}
