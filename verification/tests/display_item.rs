use webrender::display_item::{
    sanitize_func_type, sanitize_values, BorderStyle, ClipMode, ComponentTransferFuncType,
    FilterData, SpaceAndClipInfo, YuvData, YuvFormat,
};
use webrender::ids::{ClipId, IdNamespace, ImageKey, PipelineId, SpatialId};

use ComponentTransferFuncType::{Discrete, Gamma, Identity, Linear, Table};

#[test]
fn root_scroll_space_and_clip() {
    let p = PipelineId(1, 3);
    let info = SpaceAndClipInfo::root_scroll(p);
    assert_eq!(info.spatial_id, SpatialId::new(1, p));
    assert_eq!(info.clip_id, ClipId::Clip(0, p));
}

#[test]
fn hidden_border_styles() {
    let all = [
        BorderStyle::NoBorder,
        BorderStyle::Solid,
        BorderStyle::Double,
        BorderStyle::Dotted,
        BorderStyle::Dashed,
        BorderStyle::Hidden,
        BorderStyle::Groove,
        BorderStyle::Ridge,
        BorderStyle::Inset,
        BorderStyle::Outset,
    ];
    for style in all.iter() {
        let expected = *style == BorderStyle::Hidden || *style == BorderStyle::NoBorder;
        assert_eq!(style.is_hidden(), expected);
    }
}

#[test]
fn thin_groove_ridge_and_inset_become_solid() {
    assert_eq!(BorderStyle::Groove.normalized(true), BorderStyle::Solid);
    assert_eq!(BorderStyle::Ridge.normalized(true), BorderStyle::Solid);
    assert_eq!(BorderStyle::Groove.normalized(false), BorderStyle::Groove);
    assert_eq!(BorderStyle::Inset.normalized(true), BorderStyle::Solid);
    assert_eq!(BorderStyle::Inset.normalized(false), BorderStyle::Inset);
    assert_eq!(BorderStyle::Outset.normalized(true), BorderStyle::Outset);
    assert_eq!(BorderStyle::Dashed.normalized(true), BorderStyle::Dashed);
    // Normalizing twice gives what normalizing once gives.
    let once = BorderStyle::Ridge.normalized(true);
    assert_eq!(once.normalized(true), once);
    assert!(BorderStyle::Groove.renders_small_border_solid());
    assert!(BorderStyle::Inset.renders_small_border_solid());
    assert!(!BorderStyle::Solid.renders_small_border_solid());
    assert!(BorderStyle::Solid.allows_disabled_antialiasing());
    assert!(BorderStyle::NoBorder.allows_disabled_antialiasing());
    assert!(!BorderStyle::Dotted.allows_disabled_antialiasing());
}

#[test]
fn func_type_sanitizing() {
    let empty: [f32; 0] = [];
    assert_eq!(sanitize_func_type(Table, &empty), Identity);
    assert_eq!(sanitize_func_type(Linear, &[1.0f32]), Identity);
    assert_eq!(sanitize_func_type(Linear, &[1.0f32, 2.0]), Linear);
    assert_eq!(sanitize_func_type(Gamma, &[1.0f32, 2.0]), Identity);
    assert_eq!(sanitize_func_type(Gamma, &[1.0f32, 2.0, 3.0]), Gamma);
    assert_eq!(sanitize_func_type(Table, &[1.0f32]), Table);
    assert_eq!(sanitize_func_type(Discrete, &[1.0f32]), Discrete);
}

#[test]
fn values_sanitizing() {
    let empty: [f32; 0] = [];
    assert!(sanitize_values(Table, &empty));
    assert!(!sanitize_values(Linear, &[1.0f32]));
    assert!(sanitize_values(Linear, &[1.0f32, 0.5]));
    assert!(!sanitize_values(Gamma, &[1.0f32, 0.5]));
    assert!(sanitize_values(Gamma, &[1.0f32, 0.5, 0.0]));
    assert!(!sanitize_values(Linear, &empty));
}

fn sample_filter() -> FilterData<f32> {
    FilterData {
        func_r_type: Linear,
        r_values: vec![0.5],
        func_g_type: Table,
        g_values: vec![0.0, 1.0],
        func_b_type: Gamma,
        b_values: vec![1.0, 2.0, 0.0],
        func_a_type: Discrete,
        a_values: Vec::new(),
    }
}

#[test]
fn filter_data_sanitize() {
    let data = sample_filter();
    let clean = data.sanitize();
    assert_eq!(clean.func_r_type, Identity);
    assert!(clean.r_values.is_empty());
    assert_eq!(clean.func_g_type, Table);
    assert_eq!(clean.g_values, vec![0.0, 1.0]);
    assert_eq!(clean.func_b_type, Gamma);
    assert_eq!(clean.b_values, vec![1.0, 2.0, 0.0]);
    assert_eq!(clean.func_a_type, Identity);
    assert!(clean.a_values.is_empty());
    assert!(!clean.is_identity());
}

#[test]
fn filter_data_sanitize_is_idempotent() {
    let once = sample_filter().sanitize();
    let twice = once.sanitize();
    assert_eq!(twice.func_r_type, once.func_r_type);
    assert_eq!(twice.r_values, once.r_values);
    assert_eq!(twice.func_g_type, once.func_g_type);
    assert_eq!(twice.g_values, once.g_values);
    assert_eq!(twice.func_b_type, once.func_b_type);
    assert_eq!(twice.b_values, once.b_values);
    assert_eq!(twice.func_a_type, once.func_a_type);
    assert_eq!(twice.a_values, once.a_values);
}

#[test]
fn filter_data_identity() {
    let data: FilterData<f32> = FilterData {
        func_r_type: Linear,
        r_values: Vec::new(),
        func_g_type: Gamma,
        g_values: vec![1.0],
        func_b_type: Identity,
        b_values: Vec::new(),
        func_a_type: Table,
        a_values: Vec::new(),
    };
    assert!(!data.is_identity());
    assert!(data.sanitize().is_identity());
}

#[test]
fn yuv_planes_match_keys() {
    let k = ImageKey(IdNamespace(1), 2);
    assert_eq!(YuvData::NV12(k, k).get_format(), YuvFormat::NV12);
    assert_eq!(YuvData::NV12(k, k).get_format().get_plane_num(), 2);
    assert_eq!(YuvData::PlanarYCbCr(k, k, k).get_format(), YuvFormat::PlanarYCbCr);
    assert_eq!(YuvData::PlanarYCbCr(k, k, k).get_format().get_plane_num(), 3);
    assert_eq!(YuvData::InterleavedYCbCr(k).get_format(), YuvFormat::InterleavedYCbCr);
    assert_eq!(YuvFormat::InterleavedYCbCr.get_plane_num(), 1);
}

#[test]
fn clip_mode_not_is_involution() {
    assert_eq!(!ClipMode::Clip, ClipMode::ClipOut);
    assert_eq!(!ClipMode::ClipOut, ClipMode::Clip);
    assert_eq!(!!ClipMode::Clip, ClipMode::Clip);
}
