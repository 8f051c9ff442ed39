//! The compute pipelines.

use vstd::prelude::*;

verus! {

/// Slots for pipelines.
pub const MAX_PIPELINES: usize = 24;

/// Pipeline type: its number is its slot.
#[derive(Clone, Copy, Debug, PartialEq, Eq, Structural)]
pub enum PipelineType {
    RmsNorm,
    DeltaNetQkv,
    DeltaNetStep,
    DeltaNetOutput,
    GqaQkv,
    GqaAttention,
    AttnOutput,
    W1W3Fused,
    W2,
    Router,
    RouterTopk,
    MoeCombine,
    W2Scatter,
    KvWrite,
    ResidualAdd,
    SiluMult,
    Rope,
    FusedRmsNormQkvRope,
    AttnResidual,
    FusedRmsNormDnQkv,
    DnOutputResidual,
    MoeFused,
}

impl PipelineType {
    /// The slot of the pipeline.
    pub open spec fn slot(self) -> usize {
        match self {
            PipelineType::RmsNorm => 0,
            PipelineType::DeltaNetQkv => 1,
            PipelineType::DeltaNetStep => 2,
            PipelineType::DeltaNetOutput => 3,
            PipelineType::GqaQkv => 4,
            PipelineType::GqaAttention => 5,
            PipelineType::AttnOutput => 6,
            PipelineType::W1W3Fused => 7,
            PipelineType::W2 => 8,
            PipelineType::Router => 9,
            PipelineType::RouterTopk => 10,
            PipelineType::MoeCombine => 11,
            PipelineType::W2Scatter => 12,
            PipelineType::KvWrite => 13,
            PipelineType::ResidualAdd => 14,
            PipelineType::SiluMult => 15,
            PipelineType::Rope => 16,
            PipelineType::FusedRmsNormQkvRope => 17,
            PipelineType::AttnResidual => 18,
            PipelineType::FusedRmsNormDnQkv => 19,
            PipelineType::DnOutputResidual => 20,
            PipelineType::MoeFused => 21,
        }
    }

    /// The slot of the pipeline.
    pub fn index(self) -> (r: usize)
        ensures
            r == self.slot(),
            r < MAX_PIPELINES,
    {
        match self {
            PipelineType::RmsNorm => 0,
            PipelineType::DeltaNetQkv => 1,
            PipelineType::DeltaNetStep => 2,
            PipelineType::DeltaNetOutput => 3,
            PipelineType::GqaQkv => 4,
            PipelineType::GqaAttention => 5,
            PipelineType::AttnOutput => 6,
            PipelineType::W1W3Fused => 7,
            PipelineType::W2 => 8,
            PipelineType::Router => 9,
            PipelineType::RouterTopk => 10,
            PipelineType::MoeCombine => 11,
            PipelineType::W2Scatter => 12,
            PipelineType::KvWrite => 13,
            PipelineType::ResidualAdd => 14,
            PipelineType::SiluMult => 15,
            PipelineType::Rope => 16,
            PipelineType::FusedRmsNormQkvRope => 17,
            PipelineType::AttnResidual => 18,
            PipelineType::FusedRmsNormDnQkv => 19,
            PipelineType::DnOutputResidual => 20,
            PipelineType::MoeFused => 21,
        }
    }

    /// The shader's name.
    pub open spec fn shader(self) -> Seq<char> {
        match self {
            PipelineType::RmsNorm => "rms_norm"@,
            PipelineType::DeltaNetQkv => "deltanet_qkv"@,
            PipelineType::DeltaNetStep => "deltanet_step"@,
            PipelineType::DeltaNetOutput => "deltanet_output"@,
            PipelineType::GqaQkv => "qkv"@,
            PipelineType::GqaAttention => "attention"@,
            PipelineType::AttnOutput => "attn_output"@,
            PipelineType::W1W3Fused => "w1_w3_fused"@,
            PipelineType::W2 => "w2"@,
            PipelineType::Router => "router"@,
            PipelineType::RouterTopk => "router_topk"@,
            PipelineType::MoeCombine => "moe_combine"@,
            PipelineType::W2Scatter => "w2_scatter"@,
            PipelineType::KvWrite => "kv_write"@,
            PipelineType::ResidualAdd => "residual_add"@,
            PipelineType::SiluMult => "silu_mult"@,
            PipelineType::Rope => "rope"@,
            PipelineType::FusedRmsNormQkvRope => "rms_norm_qkv_rope"@,
            PipelineType::AttnResidual => "attn_residual"@,
            PipelineType::FusedRmsNormDnQkv => "rms_norm_dn_qkv"@,
            PipelineType::DnOutputResidual => "dn_output_residual"@,
            PipelineType::MoeFused => "moe_fused"@,
        }
    }

    /// The shader's name, which is that of its SPIR-V file.
    pub fn shader_name(self) -> (r: &'static str)
        ensures
            r@ == self.shader(),
    {
        match self {
            PipelineType::RmsNorm => "rms_norm",
            PipelineType::DeltaNetQkv => "deltanet_qkv",
            PipelineType::DeltaNetStep => "deltanet_step",
            PipelineType::DeltaNetOutput => "deltanet_output",
            PipelineType::GqaQkv => "qkv",
            PipelineType::GqaAttention => "attention",
            PipelineType::AttnOutput => "attn_output",
            PipelineType::W1W3Fused => "w1_w3_fused",
            PipelineType::W2 => "w2",
            PipelineType::Router => "router",
            PipelineType::RouterTopk => "router_topk",
            PipelineType::MoeCombine => "moe_combine",
            PipelineType::W2Scatter => "w2_scatter",
            PipelineType::KvWrite => "kv_write",
            PipelineType::ResidualAdd => "residual_add",
            PipelineType::SiluMult => "silu_mult",
            PipelineType::Rope => "rope",
            PipelineType::FusedRmsNormQkvRope => "rms_norm_qkv_rope",
            PipelineType::AttnResidual => "attn_residual",
            PipelineType::FusedRmsNormDnQkv => "rms_norm_dn_qkv",
            PipelineType::DnOutputResidual => "dn_output_residual",
            PipelineType::MoeFused => "moe_fused",
        }
    }
}

/// Every pipeline type, in the order in which pipelines are created.
pub open spec fn creation_order() -> Seq<PipelineType> {
    seq![
        PipelineType::RmsNorm,
        PipelineType::DeltaNetQkv,
        PipelineType::DeltaNetStep,
        PipelineType::DeltaNetOutput,
        PipelineType::GqaQkv,
        PipelineType::GqaAttention,
        PipelineType::AttnOutput,
        PipelineType::W1W3Fused,
        PipelineType::W2,
        PipelineType::W2Scatter,
        PipelineType::Router,
        PipelineType::RouterTopk,
        PipelineType::MoeCombine,
        PipelineType::KvWrite,
        PipelineType::ResidualAdd,
        PipelineType::SiluMult,
        PipelineType::Rope,
        PipelineType::FusedRmsNormQkvRope,
        PipelineType::AttnResidual,
        PipelineType::FusedRmsNormDnQkv,
        PipelineType::DnOutputResidual,
        PipelineType::MoeFused,
    ]
}

/// Every pipeline type, in the order in which pipelines are created.
pub fn pipeline_types() -> (r: Vec<PipelineType>)
    ensures
        r@ == creation_order(),
{
    vec![
        PipelineType::RmsNorm,
        PipelineType::DeltaNetQkv,
        PipelineType::DeltaNetStep,
        PipelineType::DeltaNetOutput,
        PipelineType::GqaQkv,
        PipelineType::GqaAttention,
        PipelineType::AttnOutput,
        PipelineType::W1W3Fused,
        PipelineType::W2,
        PipelineType::W2Scatter,
        PipelineType::Router,
        PipelineType::RouterTopk,
        PipelineType::MoeCombine,
        PipelineType::KvWrite,
        PipelineType::ResidualAdd,
        PipelineType::SiluMult,
        PipelineType::Rope,
        PipelineType::FusedRmsNormQkvRope,
        PipelineType::AttnResidual,
        PipelineType::FusedRmsNormDnQkv,
        PipelineType::DnOutputResidual,
        PipelineType::MoeFused,
    ]
}

/// No two pipelines share a slot, and every slot number is below the number of
/// slots.
pub proof fn law_slots_differ(a: PipelineType, b: PipelineType)
    ensures
        a.slot() < MAX_PIPELINES,
        a.slot() == b.slot() ==> a == b,
{
}

/// Every pipeline type is created.
pub proof fn law_all_are_created(p: PipelineType)
    ensures
        creation_order().contains(p),
{
    let all = creation_order();
    assert(all[0] == PipelineType::RmsNorm);
    assert(all[1] == PipelineType::DeltaNetQkv);
    assert(all[2] == PipelineType::DeltaNetStep);
    assert(all[3] == PipelineType::DeltaNetOutput);
    assert(all[4] == PipelineType::GqaQkv);
    assert(all[5] == PipelineType::GqaAttention);
    assert(all[6] == PipelineType::AttnOutput);
    assert(all[7] == PipelineType::W1W3Fused);
    assert(all[8] == PipelineType::W2);
    assert(all[9] == PipelineType::W2Scatter);
    assert(all[10] == PipelineType::Router);
    assert(all[11] == PipelineType::RouterTopk);
    assert(all[12] == PipelineType::MoeCombine);
    assert(all[13] == PipelineType::KvWrite);
    assert(all[14] == PipelineType::ResidualAdd);
    assert(all[15] == PipelineType::SiluMult);
    assert(all[16] == PipelineType::Rope);
    assert(all[17] == PipelineType::FusedRmsNormQkvRope);
    assert(all[18] == PipelineType::AttnResidual);
    assert(all[19] == PipelineType::FusedRmsNormDnQkv);
    assert(all[20] == PipelineType::DnOutputResidual);
    assert(all[21] == PipelineType::MoeFused);
}

/// The paths of fused kernels that can be taken for a single token.
#[derive(Clone, Copy, Debug, PartialEq, Eq, Structural)]
pub struct FusedPaths {
    /// Norm, projections and rotation in one dispatch, and output with residual.
    pub gqa: bool,
    /// Norm and projection in one dispatch, and output with residual.
    pub deltanet: bool,
    /// All nine experts in one dispatch.
    pub moe: bool,
}

impl FusedPaths {
    /// The paths whose pipelines are all there.
    pub open spec fn usable(loaded: Seq<bool>) -> FusedPaths {
        FusedPaths {
            gqa: loaded[PipelineType::FusedRmsNormQkvRope.slot() as int]
                && loaded[PipelineType::AttnResidual.slot() as int],
            deltanet: loaded[PipelineType::FusedRmsNormDnQkv.slot() as int]
                && loaded[PipelineType::DnOutputResidual.slot() as int],
            moe: loaded[PipelineType::MoeFused.slot() as int],
        }
    }

    /// The paths whose pipelines are all there; `loaded` says of each slot
    /// whether it holds a pipeline.
    pub fn from_loaded(loaded: &[bool]) -> (r: Self)
        requires
            loaded@.len() == MAX_PIPELINES,
        ensures
            r == FusedPaths::usable(loaded@),
            r.gqa == (loaded@[PipelineType::FusedRmsNormQkvRope.slot() as int]
                && loaded@[PipelineType::AttnResidual.slot() as int]),
            r.deltanet == (loaded@[PipelineType::FusedRmsNormDnQkv.slot() as int]
                && loaded@[PipelineType::DnOutputResidual.slot() as int]),
            r.moe == loaded@[PipelineType::MoeFused.slot() as int],
    {
        FusedPaths {
            gqa: loaded[PipelineType::FusedRmsNormQkvRope.index()]
                && loaded[PipelineType::AttnResidual.index()],
            deltanet: loaded[PipelineType::FusedRmsNormDnQkv.index()]
                && loaded[PipelineType::DnOutputResidual.index()],
            moe: loaded[PipelineType::MoeFused.index()],
        }
    }
}

/// The kernel of a pipeline stands in this slot and has this shader.
pub open spec fn is_kernel(p: PipelineType, slot: int, shader: Seq<char>) -> bool {
    p.slot() == slot && p.shader() == shader
}

/// Every pipeline has its slot and its shader.
pub proof fn law_pipelines_have_their_shaders(p: PipelineType)
    ensures
        p is RmsNorm ==> is_kernel(p, 0, "rms_norm"@),
        p is DeltaNetQkv ==> is_kernel(p, 1, "deltanet_qkv"@),
        p is DeltaNetStep ==> is_kernel(p, 2, "deltanet_step"@),
        p is DeltaNetOutput ==> is_kernel(p, 3, "deltanet_output"@),
        p is GqaQkv ==> is_kernel(p, 4, "qkv"@),
        p is GqaAttention ==> is_kernel(p, 5, "attention"@),
        p is AttnOutput ==> is_kernel(p, 6, "attn_output"@),
        p is W1W3Fused ==> is_kernel(p, 7, "w1_w3_fused"@),
        p is W2 ==> is_kernel(p, 8, "w2"@),
        p is Router ==> is_kernel(p, 9, "router"@),
        p is RouterTopk ==> is_kernel(p, 10, "router_topk"@),
        p is MoeCombine ==> is_kernel(p, 11, "moe_combine"@),
        p is W2Scatter ==> is_kernel(p, 12, "w2_scatter"@),
        p is KvWrite ==> is_kernel(p, 13, "kv_write"@),
        p is ResidualAdd ==> is_kernel(p, 14, "residual_add"@),
        p is SiluMult ==> is_kernel(p, 15, "silu_mult"@),
        p is Rope ==> is_kernel(p, 16, "rope"@),
        p is FusedRmsNormQkvRope ==> is_kernel(p, 17, "rms_norm_qkv_rope"@),
        p is AttnResidual ==> is_kernel(p, 18, "attn_residual"@),
        p is FusedRmsNormDnQkv ==> is_kernel(p, 19, "rms_norm_dn_qkv"@),
        p is DnOutputResidual ==> is_kernel(p, 20, "dn_output_residual"@),
        p is MoeFused ==> is_kernel(p, 21, "moe_fused"@),
{
}

/// A fused path is taken exactly where every slot that it needs holds a
/// pipeline: two for attention, two for the recurrent layers, one for the
/// experts.
pub proof fn law_fused_paths_need_their_kernels(loaded: Seq<bool>)
    ensures
        FusedPaths::usable(loaded).gqa <==> loaded[17] && loaded[18],
        FusedPaths::usable(loaded).deltanet <==> loaded[19] && loaded[20],
        FusedPaths::usable(loaded).moe <==> loaded[21],
{
}

} // verus!
