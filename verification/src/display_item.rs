//! The parts of display-list items that carry no geometry: the enumerations
//! that items are made of, the clip/space pair of an item, and the component
//! transfer filter data with its sanitizing rules.

use vstd::prelude::*;

use crate::ids::{ClipChainId, ClipId, ExternalScrollId, ImageKey, PipelineId, SpatialId};

verus! {

/// Per-item references into the clip tree and the spatial tree.
#[derive(Clone, Copy, Debug, PartialEq, Eq, Structural)]
pub struct SpaceAndClipInfo {
    pub spatial_id: SpatialId,
    pub clip_id: ClipId,
}

impl SpaceAndClipInfo {
    /// The space/clip info associated with the root scroll frame of a pipeline.
    pub fn root_scroll(pipeline_id: PipelineId) -> (res: SpaceAndClipInfo)
        ensures
            res.spatial_id.spatial_index() == crate::ids::ROOT_SCROLL_NODE_SPATIAL_ID,
            res.spatial_id.spatial_pipeline() == pipeline_id,
            res.clip_id == ClipId::Clip(crate::ids::ROOT_CLIP_ID, pipeline_id),
    {
        SpaceAndClipInfo {
            spatial_id: SpatialId::root_scroll_node(pipeline_id),
            clip_id: ClipId::root(pipeline_id),
        }
    }
}

/// Whether a scroll frame reacts to input events or only to script.
#[derive(Clone, Copy, Debug, PartialEq, Eq, Structural)]
pub enum ScrollSensitivity {
    ScriptAndInputEvents,
    Script,
}

#[derive(Clone, Copy, Debug, PartialEq, Eq, Hash, Structural)]
pub enum LineOrientation {
    Vertical,
    Horizontal,
}

#[derive(Clone, Copy, Debug, PartialEq, Eq, Hash, Structural)]
pub enum LineStyle {
    Solid,
    Dotted,
    Dashed,
    Wavy,
}

#[derive(Clone, Copy, Debug, PartialEq, Eq, Hash, Structural)]
pub enum RepeatMode {
    Stretch,
    Repeat,
    Round,
    Space,
}

#[derive(Clone, Copy, Debug, PartialEq, Eq, Structural)]
pub enum BorderRadiusKind {
    Uniform,
    NonUniform,
}

#[derive(Clone, Copy, Debug, PartialEq, Eq, Hash, Structural)]
pub enum BorderStyle {
    NoBorder,
    Solid,
    Double,
    Dotted,
    Dashed,
    Hidden,
    Groove,
    Ridge,
    Inset,
    Outset,
}

impl BorderStyle {
    /// A border side of this style draws nothing.
    pub fn is_hidden(&self) -> (res: bool)
        ensures
            res == (*self == BorderStyle::Hidden || *self == BorderStyle::NoBorder),
    {
        *self == BorderStyle::Hidden || *self == BorderStyle::NoBorder
    }

    /// Styles that a border may keep while anti-aliasing is switched off.
    pub open spec fn spec_allows_disabled_antialiasing(self) -> bool {
        self == BorderStyle::Solid || self == BorderStyle::NoBorder
    }

    /// Styles that are drawn solid when the side is narrower than two pixels:
    /// groove, ridge and inset sides cannot be drawn that thin.
    pub open spec fn spec_renders_small_border_solid(self) -> bool {
        self == BorderStyle::Groove || self == BorderStyle::Ridge || self == BorderStyle::Inset
    }

    /// The style a border side of this style takes once normalized, given
    /// whether the side is narrower than two pixels.
    pub open spec fn spec_normalized(self, narrow: bool) -> BorderStyle {
        if self.spec_renders_small_border_solid() && narrow {
            BorderStyle::Solid
        } else {
            self
        }
    }

    /// A border made only of sides of these styles (and with no radius) can be
    /// drawn without anti-aliasing.
    pub fn allows_disabled_antialiasing(&self) -> (res: bool)
        ensures
            res == self.spec_allows_disabled_antialiasing(),
    {
        *self == BorderStyle::Solid || *self == BorderStyle::NoBorder
    }

    /// Groove, ridge and inset borders render as solid ones when they are thin.
    pub fn renders_small_border_solid(&self) -> (res: bool)
        ensures
            res == self.spec_renders_small_border_solid(),
    {
        match *self {
            BorderStyle::Groove | BorderStyle::Ridge | BorderStyle::Inset => true,
            _ => false,
        }
    }

    /// The style of a normalized border side: a groove, ridge or inset side
    /// narrower than two pixels (`narrow`) becomes solid, any other side keeps
    /// its style.
    pub fn normalized(&self, narrow: bool) -> (res: BorderStyle)
        ensures
            res == self.spec_normalized(narrow),
    {
        if self.renders_small_border_solid() && narrow {
            BorderStyle::Solid
        } else {
            *self
        }
    }
}

/// Normalizing a border side twice gives what normalizing it once gives, and
/// a side at least two pixels wide keeps its style.
pub proof fn lemma_normalized_style_idempotent(style: BorderStyle, narrow: bool)
    ensures
        style.spec_normalized(narrow).spec_normalized(narrow) == style.spec_normalized(narrow),
        style.spec_normalized(false) == style,
        !style.spec_normalized(narrow).spec_renders_small_border_solid() || !narrow,
{
}

/// Normalizing changes a side's style only when the side is narrower than two
/// pixels and of groove, ridge or inset style, and then makes it solid; every
/// other side, a thin dotted or dashed one included, keeps its style.
pub proof fn lemma_normalize_changes_only_thin_groove_ridge_inset(style: BorderStyle, narrow: bool)
    ensures
        style.spec_normalized(narrow) != style ==> narrow && (style == BorderStyle::Groove || style
            == BorderStyle::Ridge || style == BorderStyle::Inset),
        narrow && (style == BorderStyle::Groove || style == BorderStyle::Ridge || style
            == BorderStyle::Inset) ==> style.spec_normalized(narrow) == BorderStyle::Solid,
{
}

#[derive(Clone, Copy, Debug, PartialEq, Eq, Hash, Structural)]
pub enum BoxShadowClipMode {
    Outset,
    Inset,
}

#[derive(Clone, Copy, Debug, PartialEq, Eq, Hash, Structural)]
pub enum ExtendMode {
    Clamp,
    Repeat,
}

/// A clip chain item: its id and the chain it continues, if any.
#[derive(Clone, Copy, Debug, PartialEq, Eq, Structural)]
pub struct ClipChainItem {
    pub id: ClipChainId,
    pub parent: Option<ClipChainId>,
}

/// Whether a reference frame holds a plain transform or a perspective one.
#[derive(Clone, Copy, Debug, PartialEq, Eq, Structural)]
pub enum ReferenceFrameKind {
    Transform,
    Perspective { scrolling_relative_to: Option<ExternalScrollId> },
}

#[derive(Clone, Copy, Debug, PartialEq, Eq, Hash, Structural)]
pub enum TransformStyle {
    Flat,
    Preserve3D,
}

#[derive(Clone, Copy, Debug, PartialEq, Eq, Hash, Structural)]
pub enum MixBlendMode {
    Normal,
    Multiply,
    Screen,
    Overlay,
    Darken,
    Lighten,
    ColorDodge,
    ColorBurn,
    HardLight,
    SoftLight,
    Difference,
    Exclusion,
    Hue,
    Saturation,
    Color,
    Luminosity,
}

/// The kind of transfer function that a filter applies to one color channel.
#[derive(Clone, Copy, Debug, PartialEq, Eq, Structural)]
pub enum ComponentTransferFuncType {
    Identity,
    Table,
    Discrete,
    Linear,
    Gamma,
}

/// The number of parameters that a function type needs at least.
pub open spec fn min_values(func_type: ComponentTransferFuncType) -> nat {
    match func_type {
        ComponentTransferFuncType::Linear => 2,
        ComponentTransferFuncType::Gamma => 3,
        _ => 0,
    }
}

/// A channel keeps its parameters unless its function needs more of them.
pub open spec fn spec_sanitize_values(func_type: ComponentTransferFuncType, len: nat) -> bool {
    len >= min_values(func_type)
}

/// A channel keeps its function type if it has parameters and enough of them
/// for its type; otherwise it becomes the identity.
pub open spec fn spec_sanitize_func_type(func_type: ComponentTransferFuncType, len: nat)
    -> ComponentTransferFuncType {
    if len == 0 || len < min_values(func_type) {
        ComponentTransferFuncType::Identity
    } else {
        func_type
    }
}

/// The function type of a channel after sanitizing, given its parameters.
pub fn sanitize_func_type<V>(func_type: ComponentTransferFuncType, values: &[V]) -> (res:
    ComponentTransferFuncType)
    ensures
        res == spec_sanitize_func_type(func_type, values@.len()),
{
    if values.len() == 0 {
        return ComponentTransferFuncType::Identity;
    }
    if values.len() < 2 && func_type == ComponentTransferFuncType::Linear {
        return ComponentTransferFuncType::Identity;
    }
    if values.len() < 3 && func_type == ComponentTransferFuncType::Gamma {
        return ComponentTransferFuncType::Identity;
    }
    func_type
}

/// Whether a channel keeps its parameters after sanitizing.
pub fn sanitize_values<V>(func_type: ComponentTransferFuncType, values: &[V]) -> (res: bool)
    ensures
        res == spec_sanitize_values(func_type, values@.len()),
{
    if values.len() < 2 && func_type == ComponentTransferFuncType::Linear {
        return false;
    }
    if values.len() < 3 && func_type == ComponentTransferFuncType::Gamma {
        return false;
    }
    true
}

/// The parameters of a component transfer filter: a function type and its
/// parameter values for each of the four channels. `V` is the type of one
/// parameter value; nothing here reads one.
#[derive(Clone, Debug, PartialEq)]
pub struct FilterData<V> {
    pub func_r_type: ComponentTransferFuncType,
    pub r_values: Vec<V>,
    pub func_g_type: ComponentTransferFuncType,
    pub g_values: Vec<V>,
    pub func_b_type: ComponentTransferFuncType,
    pub b_values: Vec<V>,
    pub func_a_type: ComponentTransferFuncType,
    pub a_values: Vec<V>,
}

/// The parameter values of a channel after sanitizing.
pub open spec fn sanitized_values<V>(func_type: ComponentTransferFuncType, values: Seq<V>) -> Seq<V> {
    if spec_sanitize_values(func_type, values.len()) {
        values
    } else {
        Seq::empty()
    }
}

/// One channel (function type and parameters) of a filter after sanitizing.
pub open spec fn sanitized_channel<V>(func_type: ComponentTransferFuncType, values: Seq<V>) -> (
    ComponentTransferFuncType,
    Seq<V>,
) {
    (spec_sanitize_func_type(func_type, values.len()), sanitized_values(func_type, values))
}

/// A copy of a sequence of plain values.
fn copy_values<V: Copy>(values: &Vec<V>) -> (res: Vec<V>)
    ensures
        res@ == values@,
{
    let mut res: Vec<V> = Vec::new();
    let mut i: usize = 0;
    while i < values.len()
        invariant
            i <= values@.len(),
            res@ == values@.subrange(0, i as int),
        decreases values@.len() - i,
    {
        res.push(values[i]);
        i = i + 1;
    }
    res
}

/// The parameters of one channel after sanitizing.
fn sanitize_channel_values<V: Copy>(func_type: ComponentTransferFuncType, values: &Vec<V>) -> (res:
    Vec<V>)
    ensures
        res@ == sanitized_values(func_type, values@),
{
    if sanitize_values(func_type, values.as_slice()) {
        copy_values(values)
    } else {
        Vec::new()
    }
}

impl<V: Copy> FilterData<V> {
    /// The channel of the red component, as a function type and its parameters.
    pub open spec fn red(self) -> (ComponentTransferFuncType, Seq<V>) {
        (self.func_r_type, self.r_values@)
    }

    pub open spec fn green(self) -> (ComponentTransferFuncType, Seq<V>) {
        (self.func_g_type, self.g_values@)
    }

    pub open spec fn blue(self) -> (ComponentTransferFuncType, Seq<V>) {
        (self.func_b_type, self.b_values@)
    }

    pub open spec fn alpha(self) -> (ComponentTransferFuncType, Seq<V>) {
        (self.func_a_type, self.a_values@)
    }

    /// Whether all four channels apply the identity function.
    pub open spec fn spec_is_identity(self) -> bool {
        &&& self.func_r_type == ComponentTransferFuncType::Identity
        &&& self.func_g_type == ComponentTransferFuncType::Identity
        &&& self.func_b_type == ComponentTransferFuncType::Identity
        &&& self.func_a_type == ComponentTransferFuncType::Identity
    }

    /// Makes the number of values agree with the function type of each channel:
    /// a channel whose function lacks parameters becomes the identity, and one
    /// whose function needs more parameters than it has loses them.
    pub fn sanitize(&self) -> (res: FilterData<V>)
        ensures
            res.red() == sanitized_channel(self.func_r_type, self.r_values@),
            res.green() == sanitized_channel(self.func_g_type, self.g_values@),
            res.blue() == sanitized_channel(self.func_b_type, self.b_values@),
            res.alpha() == sanitized_channel(self.func_a_type, self.a_values@),
    {
        FilterData {
            func_r_type: sanitize_func_type(self.func_r_type, self.r_values.as_slice()),
            r_values: sanitize_channel_values(self.func_r_type, &self.r_values),
            func_g_type: sanitize_func_type(self.func_g_type, self.g_values.as_slice()),
            g_values: sanitize_channel_values(self.func_g_type, &self.g_values),
            func_b_type: sanitize_func_type(self.func_b_type, self.b_values.as_slice()),
            b_values: sanitize_channel_values(self.func_b_type, &self.b_values),
            func_a_type: sanitize_func_type(self.func_a_type, self.a_values.as_slice()),
            a_values: sanitize_channel_values(self.func_a_type, &self.a_values),
        }
    }

    pub fn is_identity(&self) -> (res: bool)
        ensures
            res == self.spec_is_identity(),
    {
        self.func_r_type == ComponentTransferFuncType::Identity
            && self.func_g_type == ComponentTransferFuncType::Identity
            && self.func_b_type == ComponentTransferFuncType::Identity
            && self.func_a_type == ComponentTransferFuncType::Identity
    }
}

/// Sanitizing a channel twice gives what sanitizing it once gives.
pub proof fn lemma_sanitize_channel_idempotent<V>(func_type: ComponentTransferFuncType, values: Seq<V>)
    ensures
        ({
            let once = sanitized_channel(func_type, values);
            sanitized_channel(once.0, once.1) == once
        }),
{
}

/// Sanitizing filter data twice gives what sanitizing it once gives: every
/// channel of sanitized data already has the parameters its function needs.
pub proof fn lemma_filter_sanitize_idempotent<V: Copy>(data: FilterData<V>, once: FilterData<V>, twice: FilterData<V>)
    requires
        once.red() == sanitized_channel(data.func_r_type, data.r_values@),
        once.green() == sanitized_channel(data.func_g_type, data.g_values@),
        once.blue() == sanitized_channel(data.func_b_type, data.b_values@),
        once.alpha() == sanitized_channel(data.func_a_type, data.a_values@),
        twice.red() == sanitized_channel(once.func_r_type, once.r_values@),
        twice.green() == sanitized_channel(once.func_g_type, once.g_values@),
        twice.blue() == sanitized_channel(once.func_b_type, once.b_values@),
        twice.alpha() == sanitized_channel(once.func_a_type, once.a_values@),
    ensures
        twice.red() == once.red(),
        twice.green() == once.green(),
        twice.blue() == once.blue(),
        twice.alpha() == once.alpha(),
{
    lemma_sanitize_channel_idempotent(data.func_r_type, data.r_values@);
    lemma_sanitize_channel_idempotent(data.func_g_type, data.g_values@);
    lemma_sanitize_channel_idempotent(data.func_b_type, data.b_values@);
    lemma_sanitize_channel_idempotent(data.func_a_type, data.a_values@);
}

/// A channel whose parameters are dropped ends with the identity function.
pub proof fn lemma_dropped_values_give_identity<V>(func_type: ComponentTransferFuncType, values: Seq<V>)
    requires
        !spec_sanitize_values(func_type, values.len()),
    ensures
        spec_sanitize_func_type(func_type, values.len()) == ComponentTransferFuncType::Identity,
        sanitized_values(func_type, values).len() == 0,
{
}

#[derive(Clone, Copy, Debug, PartialEq, Eq, Structural)]
pub struct IframeDisplayItem {
    pub pipeline_id: PipelineId,
    pub ignore_missing_pipeline: bool,
}

#[derive(Clone, Copy, Debug, PartialEq, Eq, Hash, Structural)]
pub enum ImageRendering {
    Auto,
    CrispEdges,
    Pixelated,
}

#[derive(Clone, Copy, Debug, PartialEq, Eq, Hash, Structural)]
pub enum AlphaType {
    Alpha,
    PremultipliedAlpha,
}

#[derive(Clone, Copy, Debug, PartialEq, Eq, Hash, Structural)]
pub enum YuvColorSpace {
    Rec601,
    Rec709,
}

/// The image planes of a YUV image.
#[derive(Clone, Copy, Debug, PartialEq, Eq, Hash, Structural)]
pub enum YuvData {
    /// The Y channel, then the interleaved CbCr channel.
    NV12(ImageKey, ImageKey),
    /// The Y, Cb and Cr channels.
    PlanarYCbCr(ImageKey, ImageKey, ImageKey),
    /// One interleaved YCbCr channel.
    InterleavedYCbCr(ImageKey),
}

/// The number of image keys that a YUV description holds.
pub open spec fn yuv_key_count(data: YuvData) -> nat {
    match data {
        YuvData::NV12(..) => 2,
        YuvData::PlanarYCbCr(..) => 3,
        YuvData::InterleavedYCbCr(..) => 1,
    }
}

impl YuvData {
    pub open spec fn spec_format(self) -> YuvFormat {
        match self {
            YuvData::NV12(..) => YuvFormat::NV12,
            YuvData::PlanarYCbCr(..) => YuvFormat::PlanarYCbCr,
            YuvData::InterleavedYCbCr(..) => YuvFormat::InterleavedYCbCr,
        }
    }

    pub fn get_format(&self) -> (res: YuvFormat)
        ensures
            res == self.spec_format(),
    {
        match *self {
            YuvData::NV12(..) => YuvFormat::NV12,
            YuvData::PlanarYCbCr(..) => YuvFormat::PlanarYCbCr,
            YuvData::InterleavedYCbCr(..) => YuvFormat::InterleavedYCbCr,
        }
    }
}

#[derive(Clone, Copy, Debug, PartialEq, Eq, Hash, Structural)]
pub enum YuvFormat {
    NV12,
    PlanarYCbCr,
    InterleavedYCbCr,
}

impl YuvFormat {
    pub open spec fn spec_plane_num(self) -> nat {
        match self {
            YuvFormat::NV12 => 2,
            YuvFormat::PlanarYCbCr => 3,
            YuvFormat::InterleavedYCbCr => 1,
        }
    }

    /// The number of image planes that a format reads.
    pub fn get_plane_num(&self) -> (res: usize)
        ensures
            res == self.spec_plane_num(),
    {
        match *self {
            YuvFormat::NV12 => 2,
            YuvFormat::PlanarYCbCr => 3,
            YuvFormat::InterleavedYCbCr => 1,
        }
    }
}

/// The format of YUV data reads exactly as many planes as the data has keys.
pub proof fn lemma_plane_num_matches_keys(data: YuvData)
    ensures
        data.spec_format().spec_plane_num() == yuv_key_count(data),
{
}

/// Whether the pixels inside or outside a clip region stay visible.
#[derive(Clone, Copy, Debug, PartialEq, Eq, Hash, Structural)]
pub enum ClipMode {
    /// Pixels inside the region are visible.
    Clip,
    /// Pixels outside the region are visible.
    ClipOut,
}

impl ClipMode {
    pub open spec fn spec_not(self) -> ClipMode {
        match self {
            ClipMode::Clip => ClipMode::ClipOut,
            ClipMode::ClipOut => ClipMode::Clip,
        }
    }
}

impl core::ops::Not for ClipMode {
    type Output = ClipMode;

    fn not(self) -> (res: ClipMode) {
        match self {
            ClipMode::Clip => ClipMode::ClipOut,
            ClipMode::ClipOut => ClipMode::Clip,
        }
    }
}

impl vstd::std_specs::ops::NotSpecImpl for ClipMode {
    open spec fn obeys_not_spec() -> bool {
        true
    }

    open spec fn not_req(self) -> bool {
        true
    }

    open spec fn not_spec(self) -> ClipMode {
        self.spec_not()
    }
}

/// Inverting a clip mode twice gives it back.
pub proof fn lemma_clip_mode_not_involutive(mode: ClipMode)
    ensures
        mode.spec_not().spec_not() == mode,
        mode.spec_not() != mode,
{
}

} // verus!
