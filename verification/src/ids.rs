//! Identifiers that name pipelines, clips, spatial nodes and scroll frames.

use vstd::prelude::*;

verus! {

/// The identifier of a pipeline: a source namespace and a number within it.
#[derive(Clone, Copy, Debug, PartialEq, Eq, Hash, Structural)]
pub struct PipelineId(pub u32, pub u32);

impl PipelineId {
    /// The pipeline used where one has to be named but none is meant.
    pub fn dummy() -> (res: PipelineId)
        ensures
            res == PipelineId(0, 0),
    {
        PipelineId(0, 0)
    }
}

/// The namespace in which resource keys are allocated.
#[derive(Clone, Copy, Debug, PartialEq, Eq, Hash, Structural)]
pub struct IdNamespace(pub u32);

/// The key of an image resource.
#[derive(Clone, Copy, Debug, PartialEq, Eq, Hash, Structural)]
pub struct ImageKey(pub IdNamespace, pub u32);

/// The index of the clip that stands for "no clipping".
pub const ROOT_CLIP_ID: usize = 0;

/// The spatial index of the root reference frame of every pipeline.
pub const ROOT_REFERENCE_FRAME_SPATIAL_ID: usize = 0;

/// The spatial index of the root scroll node of every pipeline.
pub const ROOT_SCROLL_NODE_SPATIAL_ID: usize = 1;

/// The identifier of a chain of clips within a pipeline.
#[derive(Clone, Copy, Debug, PartialEq, Eq, Hash, Structural)]
pub struct ClipChainId(pub u64, pub PipelineId);

/// A reference to a clipping node defining how an item is clipped.
#[derive(Clone, Copy, Debug, PartialEq, Eq, Hash, Structural)]
pub enum ClipId {
    Clip(usize, PipelineId),
    ClipChain(ClipChainId),
}

impl ClipId {
    /// The pipeline that a clip id belongs to.
    pub open spec fn pipeline_of(self) -> PipelineId {
        match self {
            ClipId::Clip(_, p) => p,
            ClipId::ClipChain(ClipChainId(_, p)) => p,
        }
    }

    /// Whether a clip id names the root clip, which does no clipping.
    pub open spec fn spec_is_root(self) -> bool {
        match self {
            ClipId::Clip(id, _) => id == ROOT_CLIP_ID,
            ClipId::ClipChain(_) => false,
        }
    }

    /// Whether a clip id may be used: only the clip index `usize::MAX` is invalid.
    pub open spec fn spec_is_valid(self) -> bool {
        match self {
            ClipId::Clip(id, _) => id != usize::MAX,
            ClipId::ClipChain(_) => true,
        }
    }

    /// The root clip id of a pipeline: effectively no clipping.
    pub fn root(pipeline_id: PipelineId) -> (res: ClipId)
        ensures
            res == ClipId::Clip(ROOT_CLIP_ID, pipeline_id),
    {
        ClipId::Clip(ROOT_CLIP_ID, pipeline_id)
    }

    /// An invalid clip id, carried where one must be given but must not be used.
    pub fn invalid() -> (res: ClipId)
        ensures
            res == ClipId::Clip(usize::MAX, PipelineId(0, 0)),
    {
        ClipId::Clip(usize::MAX, PipelineId::dummy())
    }

    pub fn pipeline_id(&self) -> (res: PipelineId)
        ensures
            res == self.pipeline_of(),
    {
        match *self {
            ClipId::Clip(_, pipeline_id) => pipeline_id,
            ClipId::ClipChain(ClipChainId(_, pipeline_id)) => pipeline_id,
        }
    }

    pub fn is_root(&self) -> (res: bool)
        ensures
            res == self.spec_is_root(),
    {
        match *self {
            ClipId::Clip(id, _) => id == ROOT_CLIP_ID,
            ClipId::ClipChain(_) => false,
        }
    }

    pub fn is_valid(&self) -> (res: bool)
        ensures
            res == self.spec_is_valid(),
    {
        match *self {
            ClipId::Clip(id, _) => id != usize::MAX,
            _ => true,
        }
    }
}

/// A reference to a spatial node defining item positioning: an index within
/// a pipeline.
#[derive(Clone, Copy, Debug, PartialEq, Eq, Hash, Structural)]
pub struct SpatialId(pub usize, PipelineId);

impl SpatialId {
    /// The index of the spatial node within its pipeline.
    pub closed spec fn spatial_index(self) -> usize {
        self.0
    }

    /// The pipeline that a spatial id belongs to.
    pub closed spec fn spatial_pipeline(self) -> PipelineId {
        self.1
    }

    pub fn new(spatial_node_index: usize, pipeline_id: PipelineId) -> (res: SpatialId)
        ensures
            res.spatial_index() == spatial_node_index,
            res.spatial_pipeline() == pipeline_id,
    {
        SpatialId(spatial_node_index, pipeline_id)
    }

    pub fn root_reference_frame(pipeline_id: PipelineId) -> (res: SpatialId)
        ensures
            res.spatial_index() == ROOT_REFERENCE_FRAME_SPATIAL_ID,
            res.spatial_pipeline() == pipeline_id,
    {
        SpatialId(ROOT_REFERENCE_FRAME_SPATIAL_ID, pipeline_id)
    }

    pub fn root_scroll_node(pipeline_id: PipelineId) -> (res: SpatialId)
        ensures
            res.spatial_index() == ROOT_SCROLL_NODE_SPATIAL_ID,
            res.spatial_pipeline() == pipeline_id,
    {
        SpatialId(ROOT_SCROLL_NODE_SPATIAL_ID, pipeline_id)
    }

    pub fn pipeline_id(&self) -> (res: PipelineId)
        ensures
            res == self.spatial_pipeline(),
    {
        self.1
    }

    pub fn is_root_reference_frame(&self) -> (res: bool)
        ensures
            res == (self.spatial_index() == ROOT_REFERENCE_FRAME_SPATIAL_ID),
    {
        self.0 == ROOT_REFERENCE_FRAME_SPATIAL_ID
    }

    pub fn is_root_scroll_node(&self) -> (res: bool)
        ensures
            res == (self.spatial_index() == ROOT_SCROLL_NODE_SPATIAL_ID),
    {
        self.0 == ROOT_SCROLL_NODE_SPATIAL_ID
    }
}

/// An identifier of a scroll frame that stays the same across display lists,
/// unlike its clip id. The value zero is kept for the root scroll node of
/// every pipeline.
#[derive(Clone, Copy, Debug, PartialEq, Eq, Hash, Structural)]
pub struct ExternalScrollId(pub u64, pub PipelineId);

impl ExternalScrollId {
    pub fn pipeline_id(&self) -> (res: PipelineId)
        ensures
            res == self.1,
    {
        self.1
    }

    pub fn is_root(&self) -> (res: bool)
        ensures
            res == (self.0 == 0),
    {
        self.0 == 0
    }
}

/// The root clip of a pipeline names that pipeline, does no clipping and is
/// valid; the invalid clip is neither valid nor the root.
pub proof fn lemma_root_and_invalid_clips(pipeline_id: PipelineId)
    ensures
        ClipId::Clip(ROOT_CLIP_ID, pipeline_id).spec_is_root(),
        ClipId::Clip(ROOT_CLIP_ID, pipeline_id).spec_is_valid(),
        ClipId::Clip(ROOT_CLIP_ID, pipeline_id).pipeline_of() == pipeline_id,
        !ClipId::Clip(usize::MAX, PipelineId(0, 0)).spec_is_valid(),
        !ClipId::Clip(usize::MAX, PipelineId(0, 0)).spec_is_root(),
{
}

/// A clip chain id never names the root clip and is always valid.
pub proof fn lemma_clip_chains_valid_not_root(chain: ClipChainId)
    ensures
        ClipId::ClipChain(chain).spec_is_valid(),
        !ClipId::ClipChain(chain).spec_is_root(),
        ClipId::ClipChain(chain).pipeline_of() == chain.1,
{
}

} // verus!
