//! The forward pass as commands for the device: what is bound, pushed and
//! dispatched, and where a barrier stands.

use vstd::prelude::*;

use crate::memory::{ArenaLayout, LayerWeights};
use crate::pipeline::{FusedPaths, PipelineType};
use crate::router;
use crate::router::RoutingOutput;
use crate::util;

verus! {

/// The factor by which a kernel scales its result.
#[derive(Clone, Copy, Debug, PartialEq, Eq, Structural)]
pub enum Scale {
    One,
    /// One ninth.
    Ninth,
    /// One ninth of a 32-bit float, given by its bit pattern.
    NinthOf(u32),
}

/// Push constants of all kernels.
#[derive(Clone, Copy, Debug, PartialEq, Eq, Structural)]
#[allow(non_snake_case)]
pub struct PushConstants {
    pub input_offset: u64,
    pub weights_offset: u64,
    pub output_offset: u64,
    pub M: u32,
    pub N: u32,
    pub K: u32,
    pub num_experts: u32,
    pub routing_weights_off: u64,
    pub num_qk_heads: u32,
    pub num_v_heads: u32,
    pub layer_idx: u32,
    pub token_ids_off: u64,
    pub scale: Scale,
}

impl PushConstants {
    pub open spec fn initial() -> PushConstants {
        PushConstants {
            input_offset: 0,
            weights_offset: 0,
            output_offset: 0,
            M: 1,
            N: 0,
            K: 0,
            num_experts: 0,
            routing_weights_off: 0,
            num_qk_heads: 16,
            num_v_heads: 32,
            layer_idx: 0,
            token_ids_off: 0,
            scale: Scale::One,
        }
    }
}

impl Default for PushConstants {
    fn default() -> (r: Self)
        ensures
            r == PushConstants::initial(),
    {
        PushConstants {
            input_offset: 0,
            weights_offset: 0,
            output_offset: 0,
            M: 1,
            N: 0,
            K: 0,
            num_experts: 0,
            routing_weights_off: 0,
            num_qk_heads: 16,
            num_v_heads: 32,
            layer_idx: 0,
            token_ids_off: 0,
            scale: Scale::One,
        }
    }
}

/// The low half of a 64-bit number.
pub open spec fn low_word(x: u64) -> u32 {
    (x as int % 0x1_0000_0000) as u32
}

/// The high half of a 64-bit number.
pub open spec fn high_word(x: u64) -> u32 {
    (x as int / 0x1_0000_0000) as u32
}

impl PushConstants {
    /// The 128 bytes that the shaders read, as words: 64-bit numbers with their
    /// low half first, the scale as a bit pattern, and zeros behind it.
    pub open spec fn words(&self, scale_bits: u32) -> Seq<u32> {
        seq![
            low_word(self.input_offset),
            high_word(self.input_offset),
            low_word(self.weights_offset),
            high_word(self.weights_offset),
            low_word(self.output_offset),
            high_word(self.output_offset),
            self.M,
            self.N,
            self.K,
            self.num_experts,
            low_word(self.routing_weights_off),
            high_word(self.routing_weights_off),
            self.num_qk_heads,
            self.num_v_heads,
            self.layer_idx,
            0u32,
            low_word(self.token_ids_off),
            high_word(self.token_ids_off),
            scale_bits,
        ] + Seq::new(13, |i: int| 0u32)
    }

    /// The 128 bytes that the shaders read, as words; `scale_bits` is the bit
    /// pattern of the scale.
    pub fn to_words(&self, scale_bits: u32) -> (r: [u32; 32])
        ensures
            r@ == self.words(scale_bits),
    {
        let (i0, i1) = halves(self.input_offset);
        let (w0, w1) = halves(self.weights_offset);
        let (o0, o1) = halves(self.output_offset);
        let (r0, r1) = halves(self.routing_weights_off);
        let (t0, t1) = halves(self.token_ids_off);
        let r: [u32; 32] = [
            i0,
            i1,
            w0,
            w1,
            o0,
            o1,
            self.M,
            self.N,
            self.K,
            self.num_experts,
            r0,
            r1,
            self.num_qk_heads,
            self.num_v_heads,
            self.layer_idx,
            0,
            t0,
            t1,
            scale_bits,
            0,
            0,
            0,
            0,
            0,
            0,
            0,
            0,
            0,
            0,
            0,
            0,
            0,
        ];
        assert(r@ =~= self.words(scale_bits));
        r
    }
}

/// The low and the high half of a 64-bit number.
fn halves(x: u64) -> (r: (u32, u32))
    ensures
        r.0 == low_word(x),
        r.1 == high_word(x),
{
    ((x % 0x1_0000_0000) as u32, (x / 0x1_0000_0000) as u32)
}

/// One entry of a command buffer.
#[derive(Clone, Copy, Debug, PartialEq, Eq, Structural)]
pub enum Command {
    /// Bind a pipeline and the descriptor set.
    Bind(PipelineType),
    Push(PushConstants),
    Dispatch(u32, u32, u32),
    /// Make shader writes visible to shader reads.
    Barrier,
}

/// Where generation stands.
#[derive(Clone, Copy, Debug, PartialEq, Eq, Structural)]
pub struct InferenceState {
    pub position: u32,
    /// Tokens processed.
    pub seq_len: u32,
    /// Which hidden-state buffer the next layer reads.
    pub hidden_ping: bool,
}

impl InferenceState {
    pub fn new() -> (r: Self)
        ensures
            r == (InferenceState { position: 0, seq_len: 0, hidden_ping: true }),
    {
        InferenceState { position: 0, seq_len: 0, hidden_ping: true }
    }
}

/// A kernel: its pipeline, its constants and its groups.
pub open spec fn run(pt: PipelineType, pc: PushConstants, x: int, y: int) -> Seq<Command> {
    seq![Command::Bind(pt), Command::Push(pc), Command::Dispatch(x as u32, y as u32, 1)]
}

/// A kernel and a barrier.
pub open spec fn step(pt: PipelineType, pc: PushConstants, x: int, y: int) -> Seq<Command> {
    run(pt, pc, x, y) + seq![Command::Barrier]
}

/// The hidden state that a layer reads.
pub open spec fn hidden_in(l: ArenaLayout, ping: bool) -> u64 {
    if ping {
        l.hidden_ping
    } else {
        l.hidden_pong
    }
}

/// The hidden state that a layer writes.
pub open spec fn hidden_out(l: ArenaLayout, ping: bool) -> u64 {
    hidden_in(l, !ping)
}

/// Groups of 64 rows.
pub open spec fn rows(m: int) -> int {
    (m + 63) / 64
}

/// Groups of 8 columns.
pub open spec fn cols(n: int) -> int {
    (n + 7) / 8
}

/// Groups of 256 threads.
pub open spec fn wide(n: int) -> int {
    (n + 255) / 256
}

/// Where the projections of `m` tokens stand: behind their normed hidden state.
pub open spec fn qkv_base(l: ArenaLayout, w: LayerWeights, m: u32) -> int {
    l.temp_base + m * w.hidden_size * 2
}

/// The cache of an attention layer, which is every fourth layer.
pub open spec fn cache_base(l: ArenaLayout, layer: u32) -> int {
    l.kv_cache_base + (layer / 4) * l.kv_cache_layer_stride
}

/// Constants that every layer begins with: the norm of the hidden state.
pub open spec fn norm_pc(
    l: ArenaLayout,
    w: LayerWeights,
    m: u32,
    s: InferenceState,
) -> PushConstants {
    PushConstants {
        input_offset: hidden_in(l, s.hidden_ping),
        output_offset: l.temp_base,
        M: m,
        K: w.hidden_size,
        ..PushConstants::initial()
    }
}

/// Attention for one token, with fused kernels.
pub open spec fn gqa_fused(
    l: ArenaLayout,
    w: LayerWeights,
    layer: u32,
    s: InferenceState,
) -> Seq<Command> {
    let qkv = qkv_base(l, w, 1) as u64;
    let cache = cache_base(l, layer) as u64;
    let hidden = w.hidden_size;
    step(
        PipelineType::FusedRmsNormQkvRope,
        PushConstants {
            input_offset: hidden_in(l, s.hidden_ping),
            weights_offset: w.attn_q@[layer as int],
            output_offset: qkv,
            N: 5120,
            K: hidden,
            num_experts: s.seq_len,
            routing_weights_off: w.attn_k@[layer as int],
            num_v_heads: 2,
            token_ids_off: w.attn_v@[layer as int],
            ..PushConstants::initial()
        },
        1,
        640,
    ) + step(
        PipelineType::KvWrite,
        PushConstants {
            input_offset: qkv,
            weights_offset: cache,
            N: w.max_seq_len,
            K: s.seq_len,
            ..PushConstants::initial()
        },
        1,
        32,
    ) + step(
        PipelineType::GqaAttention,
        PushConstants {
            input_offset: qkv,
            weights_offset: cache,
            output_offset: l.temp_base,
            K: (s.seq_len + 1) as u32,
            ..PushConstants::initial()
        },
        1,
        16,
    ) + step(
        PipelineType::AttnResidual,
        PushConstants {
            input_offset: l.temp_base,
            weights_offset: w.attn_output@[layer as int],
            output_offset: hidden_out(l, s.hidden_ping),
            N: hidden,
            K: hidden,
            routing_weights_off: hidden_in(l, s.hidden_ping),
            ..PushConstants::initial()
        },
        1,
        cols(hidden as int),
    )
}

/// Constants of the query projection.
pub open spec fn q_pc(
    l: ArenaLayout,
    w: LayerWeights,
    layer: u32,
    m: u32,
    s: InferenceState,
) -> PushConstants {
    PushConstants {
        input_offset: l.temp_base,
        weights_offset: w.attn_q@[layer as int],
        output_offset: qkv_base(l, w, m) as u64,
        N: 4096,
        ..norm_pc(l, w, m, s)
    }
}

/// Constants of the key projection: keys stand behind 4096 query elements.
pub open spec fn k_pc(
    l: ArenaLayout,
    w: LayerWeights,
    layer: u32,
    m: u32,
    s: InferenceState,
) -> PushConstants {
    PushConstants {
        weights_offset: w.attn_k@[layer as int],
        output_offset: (qkv_base(l, w, m) + 8192) as u64,
        N: 512,
        ..q_pc(l, w, layer, m, s)
    }
}

/// Constants of the value projection: values stand behind 512 key elements.
pub open spec fn v_pc(
    l: ArenaLayout,
    w: LayerWeights,
    layer: u32,
    m: u32,
    s: InferenceState,
) -> PushConstants {
    PushConstants {
        weights_offset: w.attn_v@[layer as int],
        output_offset: (qkv_base(l, w, m) + 9216) as u64,
        ..k_pc(l, w, layer, m, s)
    }
}

/// Constants of the rotation: the position of the last token.
pub open spec fn rope_pc(
    l: ArenaLayout,
    w: LayerWeights,
    layer: u32,
    m: u32,
    s: InferenceState,
) -> PushConstants {
    PushConstants {
        input_offset: qkv_base(l, w, m) as u64,
        K: (s.seq_len + m - 1) as u32,
        num_v_heads: 2,
        ..v_pc(l, w, layer, m, s)
    }
}

/// Constants of the cache write, at the position of the first token.
pub open spec fn kv_pc(
    l: ArenaLayout,
    w: LayerWeights,
    layer: u32,
    m: u32,
    s: InferenceState,
) -> PushConstants {
    PushConstants {
        weights_offset: cache_base(l, layer) as u64,
        K: s.seq_len,
        N: w.max_seq_len,
        ..rope_pc(l, w, layer, m, s)
    }
}

/// Constants of the attention over all tokens in the cache.
pub open spec fn attn_pc(
    l: ArenaLayout,
    w: LayerWeights,
    layer: u32,
    m: u32,
    s: InferenceState,
) -> PushConstants {
    PushConstants {
        output_offset: l.temp_base,
        K: (s.seq_len + m) as u32,
        ..kv_pc(l, w, layer, m, s)
    }
}

/// Constants of the attention's output projection.
pub open spec fn attn_out_pc(
    l: ArenaLayout,
    w: LayerWeights,
    layer: u32,
    m: u32,
    s: InferenceState,
) -> PushConstants {
    PushConstants {
        input_offset: l.temp_base,
        weights_offset: w.attn_output@[layer as int],
        output_offset: qkv_base(l, w, m) as u64,
        N: w.hidden_size,
        K: w.hidden_size,
        ..attn_pc(l, w, layer, m, s)
    }
}

/// Attention for any number of tokens, kernel by kernel.
pub open spec fn gqa_unfused(
    l: ArenaLayout,
    w: LayerWeights,
    layer: u32,
    m: u32,
    s: InferenceState,
) -> Seq<Command> {
    let g = rows(m as int);
    step(PipelineType::RmsNorm, norm_pc(l, w, m, s), m as int, 1) + step(
        PipelineType::GqaQkv,
        q_pc(l, w, layer, m, s),
        g,
        512,
    ) + step(PipelineType::GqaQkv, k_pc(l, w, layer, m, s), g, 64) + step(
        PipelineType::GqaQkv,
        v_pc(l, w, layer, m, s),
        g,
        64,
    ) + step(PipelineType::Rope, rope_pc(l, w, layer, m, s), m as int, 18) + step(
        PipelineType::KvWrite,
        kv_pc(l, w, layer, m, s),
        g,
        32,
    ) + step(PipelineType::GqaAttention, attn_pc(l, w, layer, m, s), m as int, 16) + run(
        PipelineType::AttnOutput,
        attn_out_pc(l, w, layer, m, s),
        g,
        cols(w.hidden_size as int),
    )
}

/// Constants of the recurrent projection: from the normed hidden state, or from
/// the hidden state itself where the kernel norms it.
pub open spec fn dn_qkv_pc(
    l: ArenaLayout,
    w: LayerWeights,
    fused: bool,
    layer: u32,
    m: u32,
    s: InferenceState,
) -> PushConstants {
    PushConstants {
        input_offset: if fused {
            hidden_in(l, s.hidden_ping)
        } else {
            l.temp_base
        },
        weights_offset: w.attn_q@[layer as int],
        output_offset: qkv_base(l, w, m) as u64,
        N: 4128,
        ..norm_pc(l, w, m, s)
    }
}

/// Constants of the recurrent step. The kernel finds the layer's state itself.
pub open spec fn dn_step_pc(
    l: ArenaLayout,
    w: LayerWeights,
    fused: bool,
    layer: u32,
    m: u32,
    s: InferenceState,
) -> PushConstants {
    PushConstants {
        input_offset: qkv_base(l, w, m) as u64,
        weights_offset: l.deltanet_state_base,
        output_offset: l.deltanet_state_base,
        layer_idx: layer,
        ..dn_qkv_pc(l, w, fused, layer, m, s)
    }
}

/// Constants of the recurrent output projection, residual included.
pub open spec fn dn_residual_pc(
    l: ArenaLayout,
    w: LayerWeights,
    layer: u32,
    s: InferenceState,
) -> PushConstants {
    PushConstants {
        input_offset: qkv_base(l, w, 1) as u64,
        weights_offset: w.attn_output@[layer as int],
        output_offset: hidden_out(l, s.hidden_ping),
        N: w.hidden_size,
        K: 4096,
        routing_weights_off: hidden_in(l, s.hidden_ping),
        ..PushConstants::initial()
    }
}

/// Constants of the recurrent output projection.
pub open spec fn dn_out_pc(
    l: ArenaLayout,
    w: LayerWeights,
    layer: u32,
    m: u32,
    s: InferenceState,
) -> PushConstants {
    PushConstants {
        weights_offset: w.attn_output@[layer as int],
        output_offset: qkv_base(l, w, m) as u64,
        N: w.hidden_size,
        K: 4096,
        ..dn_step_pc(l, w, false, layer, m, s)
    }
}

/// Linear attention for one token, with fused kernels.
pub open spec fn dn_fused(
    l: ArenaLayout,
    w: LayerWeights,
    layer: u32,
    s: InferenceState,
) -> Seq<Command> {
    step(PipelineType::FusedRmsNormDnQkv, dn_qkv_pc(l, w, true, layer, 1, s), 1, 516) + step(
        PipelineType::DeltaNetStep,
        dn_step_pc(l, w, true, layer, 1, s),
        16,
        32,
    ) + run(
        PipelineType::DnOutputResidual,
        dn_residual_pc(l, w, layer, s),
        1,
        cols(w.hidden_size as int),
    )
}

/// Linear attention for any number of tokens, kernel by kernel.
pub open spec fn dn_unfused(
    l: ArenaLayout,
    w: LayerWeights,
    layer: u32,
    m: u32,
    s: InferenceState,
) -> Seq<Command> {
    step(PipelineType::RmsNorm, norm_pc(l, w, m, s), m as int, 1) + step(
        PipelineType::DeltaNetQkv,
        dn_qkv_pc(l, w, false, layer, m, s),
        rows(m as int),
        516,
    ) + step(PipelineType::DeltaNetStep, dn_step_pc(l, w, false, layer, m, s), 16, 32) + run(
        PipelineType::DeltaNetOutput,
        dn_out_pc(l, w, layer, m, s),
        rows(m as int),
        cols(w.hidden_size as int),
    )
}

/// A layer takes the path of fused kernels: for one token, where they are there.
pub open spec fn takes_fused(f: FusedPaths, is_gqa: bool, m: u32) -> bool {
    m == 1 && if is_gqa {
        f.gqa
    } else {
        f.deltanet
    }
}

/// The attention of a layer.
pub open spec fn mixer(
    l: ArenaLayout,
    w: LayerWeights,
    f: FusedPaths,
    layer: u32,
    is_gqa: bool,
    m: u32,
    s: InferenceState,
) -> Seq<Command> {
    if is_gqa {
        if takes_fused(f, is_gqa, m) {
            gqa_fused(l, w, layer, s)
        } else {
            gqa_unfused(l, w, layer, m, s)
        }
    } else {
        if takes_fused(f, is_gqa, m) {
            dn_fused(l, w, layer, s)
        } else {
            dn_unfused(l, w, layer, m, s)
        }
    }
}

/// The constants that are left when the attention of a layer is done.
pub open spec fn mixer_pc(
    l: ArenaLayout,
    w: LayerWeights,
    f: FusedPaths,
    layer: u32,
    is_gqa: bool,
    m: u32,
    s: InferenceState,
) -> PushConstants {
    if is_gqa {
        if takes_fused(f, is_gqa, m) {
            norm_pc(l, w, m, s)
        } else {
            attn_out_pc(l, w, layer, m, s)
        }
    } else {
        if takes_fused(f, is_gqa, m) {
            dn_residual_pc(l, w, layer, s)
        } else {
            dn_out_pc(l, w, layer, m, s)
        }
    }
}

/// Constants of the residual: the layer's input and its projection.
pub open spec fn residual_pc(
    l: ArenaLayout,
    w: LayerWeights,
    m: u32,
    s: InferenceState,
    pc: PushConstants,
) -> PushConstants {
    PushConstants {
        input_offset: hidden_in(l, s.hidden_ping),
        weights_offset: qkv_base(l, w, m) as u64,
        output_offset: hidden_out(l, s.hidden_ping),
        M: m,
        N: w.hidden_size,
        ..pc
    }
}

/// Constants of the router, on the new hidden state.
pub open spec fn router_pc(
    l: ArenaLayout,
    w: LayerWeights,
    layer: u32,
    m: u32,
    s: InferenceState,
    pc: PushConstants,
) -> PushConstants {
    PushConstants {
        input_offset: hidden_out(l, s.hidden_ping),
        weights_offset: w.ffn_gate@[layer as int],
        output_offset: l.routing_logits_base,
        M: m,
        N: w.num_experts,
        K: w.hidden_size,
        ..pc
    }
}

/// The router and the choice of the experts, for every token.
pub open spec fn routing(
    l: ArenaLayout,
    w: LayerWeights,
    layer: u32,
    m: u32,
    s: InferenceState,
    pc: PushConstants,
) -> Seq<Command> {
    let rp = router_pc(l, w, layer, m, s, pc);
    step(PipelineType::Router, rp, rows(m as int), cols(w.num_experts as int)) + run(
        PipelineType::RouterTopk,
        PushConstants {
            input_offset: l.routing_logits_base,
            output_offset: l.routing_topk_base,
            ..rp
        },
        if m == 0 {
            1
        } else {
            m as int
        },
        1,
    )
}

/// All commands of a layer before its experts. The residual has a kernel of its
/// own where no fused kernel added it.
pub open spec fn layer_commands(
    l: ArenaLayout,
    w: LayerWeights,
    f: FusedPaths,
    layer: u32,
    is_gqa: bool,
    m: u32,
    s: InferenceState,
) -> Seq<Command> {
    let pc = mixer_pc(l, w, f, layer, is_gqa, m, s);
    let head = mixer(l, w, f, layer, is_gqa, m, s) + seq![Command::Barrier];
    if takes_fused(f, is_gqa, m) {
        head + routing(l, w, layer, m, s, pc)
    } else {
        let rp = residual_pc(l, w, m, s, pc);
        head + step(PipelineType::ResidualAdd, rp, m as int, 1) + routing(l, w, layer, m, s, rp)
    }
}

/// Offsets and counts of a layer are machine numbers.
pub open spec fn layer_fits(
    l: ArenaLayout,
    w: LayerWeights,
    layer: u32,
    is_gqa: bool,
    m: u32,
    s: InferenceState,
) -> bool {
    &&& w.well_formed()
    &&& layer < w.num_layers
    &&& qkv_base(l, w, m) + 9216 <= u64::MAX
    &&& m + 63 <= u32::MAX
    &&& w.hidden_size + 7 <= u32::MAX
    &&& w.num_experts + 7 <= u32::MAX
    &&& is_gqa ==> {
        &&& 1 <= s.seq_len + m <= u32::MAX
        &&& cache_base(l, layer) <= u64::MAX
    }
}

fn push_run(cmds: &mut Vec<Command>, pt: PipelineType, pc: &PushConstants, x: u32, y: u32)
    ensures
        final(cmds)@ == old(cmds)@ + run(pt, *pc, x as int, y as int),
{
    cmds.push(Command::Bind(pt));
    cmds.push(Command::Push(*pc));
    cmds.push(Command::Dispatch(x, y, 1));
    assert(cmds@ =~= old(cmds)@ + run(pt, *pc, x as int, y as int));
}

fn push_step(cmds: &mut Vec<Command>, pt: PipelineType, pc: &PushConstants, x: u32, y: u32)
    ensures
        final(cmds)@ == old(cmds)@ + step(pt, *pc, x as int, y as int),
{
    push_run(cmds, pt, pc, x, y);
    cmds.push(Command::Barrier);
    assert(cmds@ =~= old(cmds)@ + step(pt, *pc, x as int, y as int));
}

fn div64(x: u32) -> (r: u32)
    requires
        x + 63 <= u32::MAX,
    ensures
        r == rows(x as int),
{
    (x + 63) / 64
}

fn div8(x: u32) -> (r: u32)
    requires
        x + 7 <= u32::MAX,
    ensures
        r == cols(x as int),
{
    (x + 7) / 8
}

fn div256(x: u32) -> (r: u32)
    requires
        x + 255 <= u32::MAX,
    ensures
        r == wide(x as int),
{
    (x + 255) / 256
}

fn input_of(l: &ArenaLayout, ping: bool) -> (r: u64)
    ensures
        r == hidden_in(*l, ping),
{
    if ping {
        l.hidden_ping
    } else {
        l.hidden_pong
    }
}

fn output_of(l: &ArenaLayout, ping: bool) -> (r: u64)
    ensures
        r == hidden_out(*l, ping),
{
    if ping {
        l.hidden_pong
    } else {
        l.hidden_ping
    }
}

fn projections(l: &ArenaLayout, w: &LayerWeights, m: u32) -> (r: u64)
    requires
        qkv_base(*l, *w, m) <= u64::MAX,
    ensures
        r == qkv_base(*l, *w, m),
{
    assert(0 <= m * w.hidden_size <= u64::MAX) by (nonlinear_arith)
        requires
            m <= u32::MAX,
            w.hidden_size <= u32::MAX,
    ;
    l.temp_base + m as u64 * w.hidden_size as u64 * 2
}

fn layer_cache(l: &ArenaLayout, layer: u32) -> (r: u64)
    requires
        cache_base(*l, layer) <= u64::MAX,
    ensures
        r == cache_base(*l, layer),
{
    let i: u64 = (layer / 4) as u64;
    assert(0 <= i * l.kv_cache_layer_stride) by (nonlinear_arith);
    l.kv_cache_base + i * l.kv_cache_layer_stride
}

/// The commands of attention for one token, with fused kernels.
fn record_gqa_fused(
    l: &ArenaLayout,
    w: &LayerWeights,
    layer: u32,
    s: &InferenceState,
) -> (cmds: Vec<Command>)
    requires
        layer_fits(*l, *w, layer, true, 1, *s),
    ensures
        cmds@ == gqa_fused(*l, *w, layer, *s),
{
    let mut cmds: Vec<Command> = Vec::new();
    let qkv: u64 = projections(l, w, 1);
    let cache: u64 = layer_cache(l, layer);
    let hidden: u32 = w.hidden_size;
    let mut pc: PushConstants = PushConstants::default();
    pc.input_offset = input_of(l, s.hidden_ping);
    pc.weights_offset = w.attn_q[layer as usize];
    pc.output_offset = qkv;
    pc.N = 5120;
    pc.K = hidden;
    pc.num_experts = s.seq_len;
    pc.routing_weights_off = w.attn_k[layer as usize];
    pc.num_v_heads = 2;
    pc.token_ids_off = w.attn_v[layer as usize];
    push_step(&mut cmds, PipelineType::FusedRmsNormQkvRope, &pc, 1, 640);

    pc = PushConstants::default();
    pc.input_offset = qkv;
    pc.weights_offset = cache;
    pc.N = w.max_seq_len;
    pc.K = s.seq_len;
    push_step(&mut cmds, PipelineType::KvWrite, &pc, 1, 32);

    pc = PushConstants::default();
    pc.input_offset = qkv;
    pc.weights_offset = cache;
    pc.output_offset = l.temp_base;
    pc.K = s.seq_len + 1;
    push_step(&mut cmds, PipelineType::GqaAttention, &pc, 1, 16);

    pc = PushConstants::default();
    pc.input_offset = l.temp_base;
    pc.weights_offset = w.attn_output[layer as usize];
    pc.output_offset = output_of(l, s.hidden_ping);
    pc.N = hidden;
    pc.K = hidden;
    pc.routing_weights_off = input_of(l, s.hidden_ping);
    push_step(&mut cmds, PipelineType::AttnResidual, &pc, 1, div8(hidden));
    assert(cmds@ =~= gqa_fused(*l, *w, layer, *s));
    cmds
}

/// The commands of attention for any number of tokens, and the constants left.
fn record_gqa_unfused(
    l: &ArenaLayout,
    w: &LayerWeights,
    layer: u32,
    m: u32,
    s: &InferenceState,
) -> (r: (Vec<Command>, PushConstants))
    requires
        layer_fits(*l, *w, layer, true, m, *s),
    ensures
        r.0@ == gqa_unfused(*l, *w, layer, m, *s),
        r.1 == attn_out_pc(*l, *w, layer, m, *s),
{
    let mut cmds: Vec<Command> = Vec::new();
    let qkv: u64 = projections(l, w, m);
    let groups: u32 = div64(m);
    let mut pc: PushConstants = PushConstants::default();
    pc.input_offset = input_of(l, s.hidden_ping);
    pc.output_offset = l.temp_base;
    pc.M = m;
    pc.K = w.hidden_size;
    push_step(&mut cmds, PipelineType::RmsNorm, &pc, m, 1);

    // 16 query heads of 256.
    pc.input_offset = l.temp_base;
    pc.weights_offset = w.attn_q[layer as usize];
    pc.output_offset = qkv;
    pc.N = 4096;
    push_step(&mut cmds, PipelineType::GqaQkv, &pc, groups, div8(4096));

    // Two key heads of 256, behind the queries.
    pc.weights_offset = w.attn_k[layer as usize];
    pc.output_offset = qkv + 8192;
    pc.N = 512;
    push_step(&mut cmds, PipelineType::GqaQkv, &pc, groups, div8(512));

    // Two value heads of 256, behind the keys.
    pc.weights_offset = w.attn_v[layer as usize];
    pc.output_offset = qkv + 9216;
    push_step(&mut cmds, PipelineType::GqaQkv, &pc, groups, div8(512));

    // 16 query heads and two key heads.
    pc.input_offset = qkv;
    pc.K = s.seq_len + m - 1;
    pc.num_v_heads = 2;
    push_step(&mut cmds, PipelineType::Rope, &pc, m, 18);

    // 16 blocks of keys and 16 of values.
    pc.weights_offset = layer_cache(l, layer);
    pc.K = s.seq_len;
    pc.N = w.max_seq_len;
    push_step(&mut cmds, PipelineType::KvWrite, &pc, groups, 32);

    pc.output_offset = l.temp_base;
    pc.K = s.seq_len + m;
    push_step(&mut cmds, PipelineType::GqaAttention, &pc, m, 16);

    pc.input_offset = l.temp_base;
    pc.weights_offset = w.attn_output[layer as usize];
    pc.output_offset = qkv;
    pc.N = w.hidden_size;
    pc.K = w.hidden_size;
    push_run(&mut cmds, PipelineType::AttnOutput, &pc, groups, div8(w.hidden_size));
    assert(cmds@ =~= gqa_unfused(*l, *w, layer, m, *s));
    (cmds, pc)
}

/// The commands of linear attention, and the constants left.
fn record_deltanet(
    l: &ArenaLayout,
    w: &LayerWeights,
    fused: bool,
    layer: u32,
    m: u32,
    s: &InferenceState,
) -> (r: (Vec<Command>, PushConstants))
    requires
        layer_fits(*l, *w, layer, false, m, *s),
        fused ==> m == 1,
    ensures
        r.0@ == if fused {
            dn_fused(*l, *w, layer, *s)
        } else {
            dn_unfused(*l, *w, layer, m, *s)
        },
        r.1 == if fused {
            dn_residual_pc(*l, *w, layer, *s)
        } else {
            dn_out_pc(*l, *w, layer, m, *s)
        },
{
    let mut cmds: Vec<Command> = Vec::new();
    let qkv: u64 = projections(l, w, m);
    let hidden: u32 = w.hidden_size;
    let mut pc: PushConstants = PushConstants::default();
    pc.input_offset = input_of(l, s.hidden_ping);
    pc.output_offset = l.temp_base;
    pc.M = m;
    pc.K = hidden;
    if !fused {
        push_step(&mut cmds, PipelineType::RmsNorm, &pc, m, 1);
        pc.input_offset = l.temp_base;
    }
    pc.weights_offset = w.attn_q[layer as usize];
    pc.output_offset = qkv;
    pc.N = 4128;
    if fused {
        push_step(&mut cmds, PipelineType::FusedRmsNormDnQkv, &pc, 1, 516);
    } else {
        push_step(&mut cmds, PipelineType::DeltaNetQkv, &pc, div64(m), div8(4128));
    }

    // The state of one token follows from that of the one before.
    pc.input_offset = qkv;
    pc.weights_offset = l.deltanet_state_base;
    pc.output_offset = l.deltanet_state_base;
    pc.layer_idx = layer;
    push_step(&mut cmds, PipelineType::DeltaNetStep, &pc, 16, 32);

    if fused {
        pc = PushConstants::default();
        pc.input_offset = qkv;
        pc.weights_offset = w.attn_output[layer as usize];
        pc.output_offset = output_of(l, s.hidden_ping);
        pc.N = hidden;
        pc.K = 4096;
        pc.routing_weights_off = input_of(l, s.hidden_ping);
        push_run(&mut cmds, PipelineType::DnOutputResidual, &pc, 1, div8(hidden));
        assert(cmds@ =~= dn_fused(*l, *w, layer, *s));
    } else {
        pc.weights_offset = w.attn_output[layer as usize];
        pc.output_offset = qkv;
        pc.N = hidden;
        pc.K = 4096;
        push_run(&mut cmds, PipelineType::DeltaNetOutput, &pc, div64(m), div8(hidden));
        assert(cmds@ =~= dn_unfused(*l, *w, layer, m, *s));
    }
    (cmds, pc)
}

/// The commands of a layer before its experts, over `m` tokens.
pub fn record_layer(
    l: &ArenaLayout,
    w: &LayerWeights,
    f: &FusedPaths,
    layer: u32,
    is_gqa: bool,
    m: u32,
    s: &InferenceState,
) -> (cmds: Vec<Command>)
    requires
        layer_fits(*l, *w, layer, is_gqa, m, *s),
    ensures
        cmds@ == layer_commands(*l, *w, *f, layer, is_gqa, m, *s),
{
    let fused: bool = m == 1 && if is_gqa {
        f.gqa
    } else {
        f.deltanet
    };
    let (recorded, left) = if is_gqa && fused {
        let mut pc: PushConstants = PushConstants::default();
        pc.input_offset = input_of(l, s.hidden_ping);
        pc.output_offset = l.temp_base;
        pc.M = m;
        pc.K = w.hidden_size;
        (record_gqa_fused(l, w, layer, s), pc)
    } else if is_gqa {
        record_gqa_unfused(l, w, layer, m, s)
    } else {
        record_deltanet(l, w, fused, layer, m, s)
    };
    let mut cmds: Vec<Command> = recorded;
    let mut pc: PushConstants = left;
    assert(cmds@ == mixer(*l, *w, *f, layer, is_gqa, m, *s));
    assert(pc == mixer_pc(*l, *w, *f, layer, is_gqa, m, *s));
    cmds.push(Command::Barrier);
    if !fused {
        pc.input_offset = input_of(l, s.hidden_ping);
        pc.weights_offset = projections(l, w, m);
        pc.output_offset = output_of(l, s.hidden_ping);
        pc.M = m;
        pc.N = w.hidden_size;
        push_step(&mut cmds, PipelineType::ResidualAdd, &pc, m, 1);
    }
    pc.input_offset = output_of(l, s.hidden_ping);
    pc.weights_offset = w.ffn_gate[layer as usize];
    pc.output_offset = l.routing_logits_base;
    pc.M = m;
    pc.N = w.num_experts;
    pc.K = w.hidden_size;
    push_step(&mut cmds, PipelineType::Router, &pc, div64(m), div8(w.num_experts));

    pc.input_offset = l.routing_logits_base;
    pc.output_offset = l.routing_topk_base;
    let tokens: u32 = if m == 0 {
        1
    } else {
        m
    };
    push_run(&mut cmds, PipelineType::RouterTopk, &pc, tokens, 1);
    assert(cmds@ =~= layer_commands(*l, *w, *f, layer, is_gqa, m, *s));
    cmds
}

/// The three matrices of an expert: gate, up and down.
#[derive(Clone, Copy, Debug, PartialEq, Eq, Structural)]
pub struct ExpertWeights {
    pub w1: u64,
    pub w3: u64,
    pub w2: u64,
}

/// The shared expert of a layer.
pub open spec fn shared_weights(w: LayerWeights, layer: u32) -> ExpertWeights {
    ExpertWeights {
        w1: w.shared_w1@[layer as int],
        w3: w.shared_w3@[layer as int],
        w2: w.shared_w2@[layer as int],
    }
}

/// An expert of a layer.
pub open spec fn expert_weights(w: LayerWeights, layer: u32, expert: int) -> ExpertWeights {
    let i = layer * w.num_experts + expert;
    ExpertWeights { w1: w.expert_w1@[i], w3: w.expert_w3@[i], w2: w.expert_w2@[i] }
}

/// Commands so far, and the constants that the next kernel starts from.
pub struct Recording {
    pub commands: Seq<Command>,
    pub pc: PushConstants,
}

/// Where the intermediate result of `m` tokens stands.
pub open spec fn moe_scratch(l: ArenaLayout, w: LayerWeights, m: int) -> int {
    l.scratch_base + m * w.intermediate_size * 2
}

/// Constants of an expert's gate and up projection, which reads what the router
/// read: the hidden state behind the residual.
pub open spec fn gate_pc(
    l: ArenaLayout,
    w: LayerWeights,
    x: ExpertWeights,
    m: int,
    ping: bool,
    tokens: u64,
    pc: PushConstants,
) -> PushConstants {
    PushConstants {
        input_offset: hidden_out(l, ping),
        weights_offset: x.w1,
        routing_weights_off: x.w3,
        output_offset: moe_scratch(l, w, m) as u64,
        M: m as u32,
        N: (w.intermediate_size * 2) as u32,
        K: w.hidden_size,
        token_ids_off: tokens,
        ..pc
    }
}

/// Constants of an expert's down projection, which adds to the hidden state that
/// the next layer reads.
pub open spec fn down_pc(
    l: ArenaLayout,
    w: LayerWeights,
    x: ExpertWeights,
    m: int,
    ping: bool,
    scale: Scale,
    pc: PushConstants,
) -> PushConstants {
    PushConstants {
        input_offset: moe_scratch(l, w, m) as u64,
        weights_offset: x.w2,
        output_offset: hidden_out(l, ping),
        N: w.hidden_size,
        K: w.intermediate_size,
        scale,
        ..pc
    }
}

/// The two kernels of an expert, with their constants.
pub open spec fn expert_steps(
    w: LayerWeights,
    m: int,
    gate: PushConstants,
    down: PushConstants,
) -> Seq<Command> {
    step(PipelineType::W1W3Fused, gate, rows(m), cols(w.intermediate_size * 2)) + step(
        PipelineType::W2Scatter,
        down,
        rows(m),
        cols(w.hidden_size as int),
    )
}

/// An expert over the tokens in its range; nothing when there are none. `routing`
/// numbers the shared expert apart from the routed ones.
pub open spec fn batch_expert(
    l: ArenaLayout,
    w: LayerWeights,
    x: ExpertWeights,
    routing: Seq<RoutingOutput>,
    e: nat,
    ping: bool,
    r: Recording,
) -> Recording {
    let all = router::slot_count(routing) as nat;
    let n = router::count(routing, all, e as int) as int;
    let first = router::below(routing, all, e) as int;
    if n == 0 {
        r
    } else {
        let tokens = (l.routing_token_base + first * 2) as u64;
        let weights = (l.routing_weight_base + first * 4) as u64;
        let gate = gate_pc(l, w, x, n, ping, tokens, r.pc);
        let down = PushConstants {
            routing_weights_off: weights,
            ..down_pc(l, w, x, n, ping, Scale::Ninth, gate)
        };
        Recording { commands: r.commands + expert_steps(w, n, gate, down), pc: down }
    }
}

/// The shared expert over all tokens, then the first `n` experts, each over the
/// tokens that are routed to it.
pub open spec fn batch_experts(
    l: ArenaLayout,
    w: LayerWeights,
    layer: u32,
    routing: Seq<RoutingOutput>,
    ping: bool,
    n: nat,
) -> Recording
    decreases n,
{
    let apart = router::shared_apart(routing, w.num_experts);
    if n == 0 {
        batch_expert(
            l,
            w,
            shared_weights(w, layer),
            apart,
            w.num_experts as nat,
            ping,
            Recording { commands: Seq::empty(), pc: PushConstants::initial() },
        )
    } else {
        batch_expert(
            l,
            w,
            expert_weights(w, layer, n - 1),
            apart,
            (n - 1) as nat,
            ping,
            batch_experts(l, w, layer, routing, ping, (n - 1) as nat),
        )
    }
}

/// One expert over `m` tokens in place, scaled by its routing weight.
pub open spec fn single_expert(
    l: ArenaLayout,
    w: LayerWeights,
    x: ExpertWeights,
    m: u32,
    ping: bool,
    scale: Scale,
    r: Recording,
) -> Recording {
    let gate = gate_pc(l, w, x, m as int, ping, 0, r.pc);
    let down = down_pc(l, w, x, m as int, ping, scale, gate);
    Recording { commands: r.commands + expert_steps(w, m as int, gate, down), pc: down }
}

/// The shared expert, then the first `n` routed experts of a token.
pub open spec fn single_experts(
    l: ArenaLayout,
    w: LayerWeights,
    layer: u32,
    routing: Seq<RoutingOutput>,
    m: u32,
    ping: bool,
    n: nat,
) -> Recording
    decreases n,
{
    if n == 0 {
        single_expert(
            l,
            w,
            shared_weights(w, layer),
            m,
            ping,
            Scale::Ninth,
            Recording { commands: Seq::empty(), pc: PushConstants::initial() },
        )
    } else {
        single_expert(
            l,
            w,
            expert_weights(w, layer, routing[0].routed[n - 1] as int),
            m,
            ping,
            Scale::NinthOf(routing[0].weights[n - 1]),
            single_experts(l, w, layer, routing, m, ping, (n - 1) as nat),
        )
    }
}

/// The constants of the kernel that runs all nine experts of a token.
pub open spec fn moe_fused_pc(l: ArenaLayout, w: LayerWeights, ping: bool) -> PushConstants {
    PushConstants {
        input_offset: hidden_in(l, ping),
        output_offset: hidden_out(l, ping),
        N: w.hidden_size,
        K: w.hidden_size,
        num_experts: w.intermediate_size,
        routing_weights_off: (l.routing_weight_base + 36) as u64,
        token_ids_off: l.routing_weight_base,
        ..PushConstants::initial()
    }
}

/// The weights that the fused kernel reads: one for the shared expert, then
/// those of the routed ones.
pub open spec fn moe_fused_weights(routing: Seq<RoutingOutput>) -> Seq<u32> {
    if routing.len() == 0 {
        seq![router::ONE_BITS]
    } else {
        seq![router::ONE_BITS] + routing[0].weights@
    }
}

/// The matrices that the fused kernel reads: three offsets for each expert.
pub open spec fn moe_fused_offsets(
    w: LayerWeights,
    layer: u32,
    routing: Seq<RoutingOutput>,
    n: nat,
) -> Seq<u64>
    decreases n,
{
    if n == 0 {
        let x = shared_weights(w, layer);
        seq![x.w1, x.w3, x.w2]
    } else {
        let x = expert_weights(w, layer, routing[0].routed[n - 1] as int);
        moe_fused_offsets(w, layer, routing, (n - 1) as nat) + seq![x.w1, x.w3, x.w2]
    }
}

/// Numbers that the host writes to the arena before the commands run.
pub enum ArenaWrite {
    /// Token numbers.
    Tokens { offset: u64, ids: Vec<u16> },
    /// Bit patterns of 32-bit floats.
    Weights { offset: u64, bits: Vec<u32> },
    /// Arena offsets.
    Offsets { offset: u64, values: Vec<u64> },
}

/// The experts of a layer: what to write, and the commands.
pub struct MoePlan {
    pub writes: Vec<ArenaWrite>,
    pub commands: Vec<Command>,
}

/// Offsets and counts of the experts of a layer are machine numbers, and all
/// experts that tokens go to are there.
pub open spec fn moe_fits(
    l: ArenaLayout,
    w: LayerWeights,
    layer: u32,
    routing: Seq<RoutingOutput>,
    m: u32,
) -> bool {
    &&& w.well_formed()
    &&& layer < w.num_layers
    &&& w.hidden_size + 7 <= u32::MAX
    &&& w.intermediate_size * 2 + 7 <= u32::MAX
    &&& if routing.len() > 1 {
        let all = router::slot_count(routing) as nat;
        let apart = router::shared_apart(routing, w.num_experts);
        &&& all <= u32::MAX
        &&& w.num_experts <= u16::MAX
        &&& forall|t: int|
            0 <= t < routing.len() ==> router::routed_exist(#[trigger] routing[t], w.num_experts)
        &&& l.routing_token_base + all * 2 <= u64::MAX
        &&& l.routing_weight_base + all * 4 <= u64::MAX
        &&& forall|e: int|
            0 <= e <= w.num_experts ==> (#[trigger] router::count(apart, all, e)) + 63 <= u32::MAX
                && moe_scratch(l, w, router::count(apart, all, e) as int) <= u64::MAX
    } else {
        &&& routing.len() == 1 ==> router::routed_exist(routing[0], w.num_experts)
        &&& m + 63 <= u32::MAX
        &&& moe_scratch(l, w, m as int) <= u64::MAX
        &&& l.routing_weight_base + 36 <= u64::MAX
    }
}

/// `plan` runs the experts of a layer for tokens routed like this.
pub open spec fn runs_experts(
    l: ArenaLayout,
    w: LayerWeights,
    f: FusedPaths,
    layer: u32,
    routing: Seq<RoutingOutput>,
    m: u32,
    ping: bool,
    plan: MoePlan,
) -> bool {
    if routing.len() > 1 {
        &&& plan.writes@.len() == 2
        &&& plan.writes@[0] matches ArenaWrite::Tokens { offset: at, ids }
            && plan.writes@[1] matches ArenaWrite::Weights { offset: wt, bits } && at
            == l.routing_token_base && wt == l.routing_weight_base && router::is_batched(
            router::shared_apart(routing, w.num_experts),
            ids@,
            bits@,
        )
        &&& plan.commands@ == batch_experts(
            l,
            w,
            layer,
            routing,
            ping,
            w.num_experts as nat,
        ).commands
    } else if m == 1 && f.moe {
        &&& plan.writes@.len() == 2
        &&& plan.writes@[0] matches ArenaWrite::Weights { offset: wt, bits }
            && plan.writes@[1] matches ArenaWrite::Offsets { offset: at, values } && wt
            == l.routing_weight_base && bits@ == moe_fused_weights(routing) && at
            == l.routing_weight_base + 36 && values@ == moe_fused_offsets(
            w,
            layer,
            routing,
            if routing.len() == 0 {
                0nat
            } else {
                8
            },
        )
        &&& plan.commands@ == run(PipelineType::MoeFused, moe_fused_pc(l, w, ping), 1, 1032)
    } else {
        &&& plan.writes@.len() == 0
        &&& plan.commands@ == single_experts(
            l,
            w,
            layer,
            routing,
            m,
            ping,
            if routing.len() == 0 {
                0nat
            } else {
                8
            },
        ).commands
    }
}

fn shared_of(w: &LayerWeights, layer: u32) -> (r: ExpertWeights)
    requires
        w.well_formed(),
        layer < w.num_layers,
    ensures
        r == shared_weights(*w, layer),
{
    ExpertWeights {
        w1: w.shared_w1[layer as usize],
        w3: w.shared_w3[layer as usize],
        w2: w.shared_w2[layer as usize],
    }
}

fn expert_at(w: &LayerWeights, layer: u32, expert: u32) -> (r: ExpertWeights)
    requires
        w.well_formed(),
        layer < w.num_layers,
        expert < w.num_experts,
    ensures
        r == expert_weights(*w, layer, expert as int),
{
    assert(0 <= layer * w.num_experts && layer * w.num_experts + expert < w.num_layers
        * w.num_experts) by (nonlinear_arith)
        requires
            layer < w.num_layers,
            expert < w.num_experts,
    ;
    assert(w.expert_w1.len() == w.expert_w1@.len());
    let i: usize = layer as usize * w.num_experts as usize + expert as usize;
    ExpertWeights { w1: w.expert_w1[i], w3: w.expert_w3[i], w2: w.expert_w2[i] }
}

fn scratch_for(l: &ArenaLayout, w: &LayerWeights, m: u32) -> (r: u64)
    requires
        moe_scratch(*l, *w, m as int) <= u64::MAX,
    ensures
        r == moe_scratch(*l, *w, m as int),
{
    assert(0 <= m * w.intermediate_size <= u64::MAX) by (nonlinear_arith)
        requires
            m <= u32::MAX,
            w.intermediate_size <= u32::MAX,
    ;
    l.scratch_base + m as u64 * w.intermediate_size as u64 * 2
}

/// Appends the two kernels of an expert and updates the constants.
fn push_expert(
    cmds: &mut Vec<Command>,
    pc: &mut PushConstants,
    l: &ArenaLayout,
    w: &LayerWeights,
    x: &ExpertWeights,
    m: u32,
    ping: bool,
    scale: Scale,
    tokens: u64,
    weights: Option<u64>,
)
    requires
        m + 63 <= u32::MAX,
        moe_scratch(*l, *w, m as int) <= u64::MAX,
        w.hidden_size + 7 <= u32::MAX,
        w.intermediate_size * 2 + 7 <= u32::MAX,
    ensures
        ({
            let gate = gate_pc(*l, *w, *x, m as int, ping, tokens, *old(pc));
            let base = down_pc(*l, *w, *x, m as int, ping, scale, gate);
            let down = match weights {
                Some(off) => PushConstants { routing_weights_off: off, ..base },
                None => base,
            };
            &&& *final(pc) == down
            &&& final(cmds)@ == old(cmds)@ + expert_steps(*w, m as int, gate, down)
        }),
{
    let scratch: u64 = scratch_for(l, w, m);
    let hidden: u64 = output_of(l, ping);
    let inter: u32 = w.intermediate_size;
    let ghost start = cmds@;
    pc.input_offset = hidden;
    pc.weights_offset = x.w1;
    pc.routing_weights_off = x.w3;
    pc.output_offset = scratch;
    pc.M = m;
    pc.N = inter * 2;
    pc.K = w.hidden_size;
    pc.token_ids_off = tokens;
    let ghost gate = *pc;
    push_step(cmds, PipelineType::W1W3Fused, pc, div64(m), div8(inter * 2));
    // The activation is part of the down projection.
    pc.input_offset = scratch;
    pc.weights_offset = x.w2;
    pc.output_offset = hidden;
    pc.N = w.hidden_size;
    pc.K = inter;
    pc.scale = scale;
    match weights {
        Some(off) => {
            pc.routing_weights_off = off;
        },
        None => {},
    }
    push_step(cmds, PipelineType::W2Scatter, pc, div64(m), div8(w.hidden_size));
    assert(cmds@ =~= start + expert_steps(*w, m as int, gate, *pc));
}

/// Appends an expert over the tokens in its range. `apart` numbers the shared
/// expert behind the routed ones.
fn push_batch(
    cmds: &mut Vec<Command>,
    pc: &mut PushConstants,
    l: &ArenaLayout,
    w: &LayerWeights,
    x: &ExpertWeights,
    apart: &[RoutingOutput],
    ranges: &Vec<u32>,
    e: u32,
    ping: bool,
)
    requires
        w.num_experts <= u16::MAX,
        router::slot_count(apart@) <= u32::MAX,
        router::experts_exist(apart@, (w.num_experts + 1) as u32),
        l.routing_token_base + router::slot_count(apart@) * 2 <= u64::MAX,
        l.routing_weight_base + router::slot_count(apart@) * 4 <= u64::MAX,
        w.hidden_size + 7 <= u32::MAX,
        w.intermediate_size * 2 + 7 <= u32::MAX,
        ({
            let n = router::count(apart@, router::slot_count(apart@) as nat, e as int);
            n + 63 <= u32::MAX && moe_scratch(*l, *w, n as int) <= u64::MAX
        }),
        e <= w.num_experts,
        ranges@.len() == w.num_experts + 2,
        forall|i: int|
            0 <= i <= w.num_experts + 1 ==> #[trigger] ranges@[i] == router::below(
                apart@,
                router::slot_count(apart@) as nat,
                i as nat,
            ),
    ensures
        ({
            let r = batch_expert(
                *l,
                *w,
                *x,
                apart@,
                e as nat,
                ping,
                Recording { commands: old(cmds)@, pc: *old(pc) },
            );
            final(cmds)@ == r.commands && *final(pc) == r.pc
        }),
{
    let ghost all = router::slot_count(apart@) as nat;
    proof {
        let experts = (w.num_experts + 1) as u32;
        router::law_ranges_cover(apart@, experts, e as nat);
        router::lemma_range_below_total(apart@, experts, (e + 1) as nat);
        assert(ranges@[e as int] == router::below(apart@, all, e as nat));
        assert(ranges@[e + 1] == router::below(apart@, all, (e + 1) as nat));
    }
    let first: u32 = ranges[e as usize];
    let n: u32 = ranges[e as usize + 1] - first;
    assert(n == router::count(apart@, all, e as int));
    if n == 0 {
        return ;
    }
    let tokens: u64 = l.routing_token_base + first as u64 * 2;
    let weights: u64 = l.routing_weight_base + first as u64 * 4;
    push_expert(cmds, pc, l, w, x, n, ping, Scale::Ninth, tokens, Some(weights));
}

/// The experts of a layer, for tokens routed like this: batched by expert for
/// many tokens, and one after the other or fused for one.
pub fn record_moe(
    l: &ArenaLayout,
    w: &LayerWeights,
    f: &FusedPaths,
    layer: u32,
    routing: &[RoutingOutput],
    m: u32,
    ping: bool,
) -> (plan: MoePlan)
    requires
        moe_fits(*l, *w, layer, routing@, m),
    ensures
        runs_experts(*l, *w, *f, layer, routing@, m, ping, plan),
{
    if routing.len() > 1 {
        record_batches(l, w, layer, routing, m, ping)
    } else if m == 1 && f.moe {
        record_fused_moe(l, w, layer, routing, m, ping)
    } else {
        let mut cmds: Vec<Command> = Vec::new();
        let mut pc: PushConstants = PushConstants::default();
        let shared: ExpertWeights = shared_of(w, layer);
        push_expert(&mut cmds, &mut pc, l, w, &shared, m, ping, Scale::Ninth, 0, None);
        if routing.len() == 1 {
            let mut i: usize = 0;
            while i < 8
                invariant
                    i <= 8,
                    moe_fits(*l, *w, layer, routing@, m),
                    routing@.len() == 1,
                    cmds@ == single_experts(
                        *l,
                        *w,
                        layer,
                        routing@,
                        m,
                        ping,
                        i as nat,
                    ).commands,
                    pc == single_experts(*l, *w, layer, routing@, m, ping, i as nat).pc,
                decreases 8 - i,
            {
                let r: &RoutingOutput = &routing[0];
                assert(r.routed[i as int] < w.num_experts);
                let x: ExpertWeights = expert_at(w, layer, r.routed[i] as u32);
                let scale: Scale = Scale::NinthOf(r.weights[i]);
                push_expert(&mut cmds, &mut pc, l, w, &x, m, ping, scale, 0, None);
                i = i + 1;
            }
        }
        MoePlan { writes: Vec::new(), commands: cmds }
    }
}

fn record_batches(
    l: &ArenaLayout,
    w: &LayerWeights,
    layer: u32,
    routing: &[RoutingOutput],
    m: u32,
    ping: bool,
) -> (plan: MoePlan)
    requires
        moe_fits(*l, *w, layer, routing@, m),
        routing@.len() > 1,
    ensures
        plan.writes@.len() == 2,
        plan.writes@[0] matches ArenaWrite::Tokens { offset: at, ids }
            && plan.writes@[1] matches ArenaWrite::Weights { offset: wt, bits } && at
            == l.routing_token_base && wt == l.routing_weight_base && router::is_batched(
            router::shared_apart(routing@, w.num_experts),
            ids@,
            bits@,
        ),
        plan.commands@ == batch_experts(
            *l,
            *w,
            layer,
            routing@,
            ping,
            w.num_experts as nat,
        ).commands,
{
    let apart: Vec<RoutingOutput> = router::set_shared_apart(routing, w.num_experts);
    let ghost all = router::slot_count(routing@) as nat;
    proof {
        router::lemma_apart_exist(routing@, w.num_experts);
    }
    let (tokens, weights, ranges) = router::build_expert_batches(
        apart.as_slice(),
        w.num_experts + 1,
    );
    let mut cmds: Vec<Command> = Vec::new();
    let mut pc: PushConstants = PushConstants::default();
    let shared: ExpertWeights = shared_of(w, layer);
    assert(router::count(apart@, all, w.num_experts as int) + 63 <= u32::MAX);
    push_batch(
        &mut cmds,
        &mut pc,
        l,
        w,
        &shared,
        apart.as_slice(),
        &ranges,
        w.num_experts,
        ping,
    );
    let mut e: u32 = 0;
    while e < w.num_experts
        invariant
            e <= w.num_experts,
            moe_fits(*l, *w, layer, routing@, m),
            routing@.len() > 1,
            apart@ == router::shared_apart(routing@, w.num_experts),
            all == router::slot_count(routing@),
            all == router::slot_count(apart@),
            router::experts_exist(apart@, (w.num_experts + 1) as u32),
            ranges@.len() == w.num_experts + 2,
            forall|i: int|
                0 <= i <= w.num_experts + 1 ==> #[trigger] ranges@[i] == router::below(
                    apart@,
                    all,
                    i as nat,
                ),
            cmds@ == batch_experts(*l, *w, layer, routing@, ping, e as nat).commands,
            pc == batch_experts(*l, *w, layer, routing@, ping, e as nat).pc,
        decreases w.num_experts - e,
    {
        let x: ExpertWeights = expert_at(w, layer, e);
        assert(router::count(apart@, all, e as int) + 63 <= u32::MAX);
        push_batch(&mut cmds, &mut pc, l, w, &x, apart.as_slice(), &ranges, e, ping);
        e = e + 1;
    }
    let writes: Vec<ArenaWrite> = vec![
        ArenaWrite::Tokens { offset: l.routing_token_base, ids: tokens },
        ArenaWrite::Weights { offset: l.routing_weight_base, bits: weights },
    ];
    MoePlan { writes, commands: cmds }
}

fn record_fused_moe(
    l: &ArenaLayout,
    w: &LayerWeights,
    layer: u32,
    routing: &[RoutingOutput],
    m: u32,
    ping: bool,
) -> (plan: MoePlan)
    requires
        moe_fits(*l, *w, layer, routing@, m),
        routing@.len() <= 1,
    ensures
        plan.writes@.len() == 2,
        plan.writes@[0] matches ArenaWrite::Weights { offset: wt, bits }
            && plan.writes@[1] matches ArenaWrite::Offsets { offset: at, values } && wt
            == l.routing_weight_base && bits@ == moe_fused_weights(routing@) && at
            == l.routing_weight_base + 36 && values@ == moe_fused_offsets(
            *w,
            layer,
            routing@,
            if routing@.len() == 0 {
                0nat
            } else {
                8
            },
        ),
        plan.commands@ == run(PipelineType::MoeFused, moe_fused_pc(*l, *w, ping), 1, 1032),
{
    let shared: ExpertWeights = shared_of(w, layer);
    let mut bits: Vec<u32> = vec![router::ONE_BITS];
    let mut values: Vec<u64> = vec![shared.w1, shared.w3, shared.w2];
    if routing.len() == 1 {
        let mut i: usize = 0;
        while i < 8
            invariant
                i <= 8,
                moe_fits(*l, *w, layer, routing@, m),
                routing@.len() == 1,
                bits@ == seq![router::ONE_BITS] + routing@[0].weights@.take(i as int),
                values@ == moe_fused_offsets(*w, layer, routing@, i as nat),
            decreases 8 - i,
        {
            let r: &RoutingOutput = &routing[0];
            assert(r.routed[i as int] < w.num_experts);
            let x: ExpertWeights = expert_at(w, layer, r.routed[i] as u32);
            bits.push(r.weights[i]);
            let ghost before = values@;
            values.push(x.w1);
            values.push(x.w3);
            values.push(x.w2);
            assert(values@ =~= before + seq![x.w1, x.w3, x.w2]);
            i = i + 1;
            assert(bits@ =~= seq![router::ONE_BITS] + routing@[0].weights@.take(i as int));
        }
        assert(routing@[0].weights@.take(8) =~= routing@[0].weights@);
    }
    let mut pc: PushConstants = PushConstants::default();
    pc.input_offset = input_of(l, ping);
    pc.output_offset = output_of(l, ping);
    pc.N = w.hidden_size;
    pc.K = w.hidden_size;
    pc.num_experts = w.intermediate_size;
    pc.routing_weights_off = l.routing_weight_base + 36;
    pc.token_ids_off = l.routing_weight_base;
    let mut cmds: Vec<Command> = Vec::new();
    push_run(&mut cmds, PipelineType::MoeFused, &pc, 1, 1032);
    assert(cmds@ =~= run(PipelineType::MoeFused, moe_fused_pc(*l, *w, ping), 1, 1032));
    let writes: Vec<ArenaWrite> = vec![
        ArenaWrite::Weights { offset: l.routing_weight_base, bits },
        ArenaWrite::Offsets { offset: l.routing_weight_base + 36, values },
    ];
    MoePlan { writes, commands: cmds }
}

/// Where the heads for further tokens keep their intermediate result.
pub open spec fn mtp_scratch(l: ArenaLayout, w: LayerWeights) -> int {
    l.scratch_base + w.hidden_size * 128
}

/// Where the logits of head `i` for further tokens stand.
pub open spec fn draft_logits(l: ArenaLayout, w: LayerWeights, i: int) -> int {
    l.scratch_base + w.hidden_size * 256 + i * util::VOCAB_SIZE * 2
}

/// The projection of the hidden state to the vocabulary.
pub open spec fn head_pc(l: ArenaLayout, w: LayerWeights, ping: bool) -> PushConstants {
    PushConstants {
        input_offset: hidden_in(l, ping),
        weights_offset: w.embedding,
        output_offset: l.scratch_base,
        N: util::VOCAB_SIZE,
        K: w.hidden_size,
        ..PushConstants::initial()
    }
}

/// Head `i` for further tokens: a projection, an activation, and a projection
/// to the vocabulary.
pub open spec fn mtp_head(
    l: ArenaLayout,
    w: LayerWeights,
    ping: bool,
    i: int,
    r: Recording,
) -> Recording {
    let z = mtp_scratch(l, w) as u64;
    let up = PushConstants {
        input_offset: hidden_in(l, ping),
        weights_offset: w.mtp_w1@[i],
        output_offset: z,
        N: w.hidden_size,
        K: w.hidden_size,
        ..r.pc
    };
    let act = PushConstants { input_offset: z, ..up };
    let out = PushConstants {
        weights_offset: w.mtp_w2@[i],
        output_offset: draft_logits(l, w, i) as u64,
        N: util::VOCAB_SIZE,
        ..act
    };
    Recording {
        commands: r.commands + step(PipelineType::AttnOutput, up, 1, cols(w.hidden_size as int))
            + step(PipelineType::SiluMult, act, 1, wide(w.hidden_size as int)) + step(
            PipelineType::AttnOutput,
            out,
            1,
            cols(util::VOCAB_SIZE as int),
        ),
        pc: out,
    }
}

/// The vocabulary projection and the first `n` heads for further tokens.
pub open spec fn head_recording(
    l: ArenaLayout,
    w: LayerWeights,
    ping: bool,
    n: nat,
) -> Recording
    decreases n,
{
    if n == 0 {
        let pc = head_pc(l, w, ping);
        Recording {
            commands: step(PipelineType::AttnOutput, pc, 1, cols(util::VOCAB_SIZE as int)),
            pc,
        }
    } else {
        mtp_head(l, w, ping, n - 1, head_recording(l, w, ping, (n - 1) as nat))
    }
}

/// Offsets of the heads are machine numbers.
pub open spec fn heads_fit(l: ArenaLayout, w: LayerWeights) -> bool {
    &&& w.well_formed()
    &&& w.hidden_size + 255 <= u32::MAX
    &&& draft_logits(l, w, w.num_mtp_heads as int) <= u64::MAX
}

/// Where the logits of head `i` for further tokens stand.
pub fn draft_logits_offset(l: &ArenaLayout, w: &LayerWeights, i: u32) -> (r: u64)
    requires
        draft_logits(*l, *w, i as int) <= u64::MAX,
    ensures
        r == draft_logits(*l, *w, i as int),
{
    l.scratch_base + w.hidden_size as u64 * 256 + i as u64 * util::VOCAB_SIZE as u64 * 2
}

/// The commands that turn the hidden state into logits, for the next token and
/// for those that the further heads predict.
pub fn record_heads(l: &ArenaLayout, w: &LayerWeights, ping: bool) -> (cmds: Vec<Command>)
    requires
        heads_fit(*l, *w),
    ensures
        cmds@ == head_recording(*l, *w, ping, w.num_mtp_heads as nat).commands,
{
    let mut cmds: Vec<Command> = Vec::new();
    let hidden: u32 = w.hidden_size;
    let mut pc: PushConstants = PushConstants::default();
    pc.input_offset = input_of(l, ping);
    pc.weights_offset = w.embedding;
    pc.output_offset = l.scratch_base;
    pc.N = util::VOCAB_SIZE;
    pc.K = hidden;
    push_step(&mut cmds, PipelineType::AttnOutput, &pc, 1, div8(util::VOCAB_SIZE));
    assert(cmds@ =~= head_recording(*l, *w, ping, 0).commands);
    let z: u64 = l.scratch_base + hidden as u64 * 128;
    let mut i: u32 = 0;
    while i < w.num_mtp_heads
        invariant
            i <= w.num_mtp_heads,
            heads_fit(*l, *w),
            hidden == w.hidden_size,
            z == mtp_scratch(*l, *w),
            cmds@ == head_recording(*l, *w, ping, i as nat).commands,
            pc == head_recording(*l, *w, ping, i as nat).pc,
        decreases w.num_mtp_heads - i,
    {
        let ghost before = head_recording(*l, *w, ping, i as nat);
        pc.input_offset = input_of(l, ping);
        pc.weights_offset = w.mtp_w1[i as usize];
        pc.output_offset = z;
        pc.N = hidden;
        pc.K = hidden;
        push_step(&mut cmds, PipelineType::AttnOutput, &pc, 1, div8(hidden));
        pc.input_offset = z;
        push_step(&mut cmds, PipelineType::SiluMult, &pc, 1, div256(hidden));
        pc.weights_offset = w.mtp_w2[i as usize];
        pc.output_offset = draft_logits_offset(l, w, i);
        pc.N = util::VOCAB_SIZE;
        push_step(&mut cmds, PipelineType::AttnOutput, &pc, 1, div8(util::VOCAB_SIZE));
        i = i + 1;
        assert(pc == mtp_head(*l, *w, ping, i - 1, before).pc);
    }
    cmds
}

/// The routing of token `t` in the entries that the device wrote: nine per
/// token, of which the first is the shared expert's.
pub open spec fn unpacked(entries: Seq<u64>, t: int, r: RoutingOutput) -> bool {
    &&& r.shared_id == 0
    &&& forall|i: int|
        0 <= i < 8 ==> #[trigger] r.routed[i] == (entries[9 * t + i + 1] & 0xffff) as u16
    &&& forall|i: int|
        0 <= i < 8 ==> #[trigger] r.weights[i] == (entries[9 * t + i + 1] >> 32) as u32
}

/// The routing of `m` tokens, from the entries at `topk_base`; none when there
/// is no such region.
pub fn unpack_routing(topk_base: u64, entries: &[u64], m: u32) -> (r: Vec<RoutingOutput>)
    requires
        topk_base != 0 ==> 9 * m <= entries@.len(),
    ensures
        topk_base == 0 ==> r@.len() == 0,
        topk_base != 0 ==> {
            &&& r@.len() == m
            &&& forall|t: int| 0 <= t < m ==> unpacked(entries@, t, #[trigger] r@[t])
        },
{
    let mut out: Vec<RoutingOutput> = Vec::new();
    if topk_base == 0 || m == 0 {
        return out;
    }
    assert(entries.len() == entries@.len());
    let mut t: usize = 0;
    while t < m as usize
        invariant
            t <= m,
            9 * m <= entries@.len() <= usize::MAX,
            out@.len() == t,
            forall|k: int| 0 <= k < t ==> unpacked(entries@, k, #[trigger] out@[k]),
        decreases m - t,
    {
        let mut routed: [u16; 8] = [0u16; 8];
        let mut weights: [u32; 8] = [0u32; 8];
        let mut i: usize = 0;
        while i < 8
            invariant
                i <= 8,
                t < m,
                9 * m <= entries@.len() <= usize::MAX,
                forall|j: int|
                    0 <= j < i ==> #[trigger] routed[j] == (entries@[9 * t + j + 1]
                        & 0xffff) as u16,
                forall|j: int|
                    0 <= j < i ==> #[trigger] weights[j] == (entries@[9 * t + j + 1] >> 32) as u32,
            decreases 8 - i,
        {
            let e: u64 = entries[9 * t + i + 1];
            routed[i] = (e & 0xffff) as u16;
            weights[i] = (e >> 32) as u32;
            i = i + 1;
        }
        out.push(RoutingOutput { routed, weights, shared_id: 0 });
        t = t + 1;
    }
    out
}

/// A command that adds the residual to a layer's output.
pub open spec fn adds_residual(c: Command) -> bool {
    c == Command::Bind(PipelineType::ResidualAdd) || c == Command::Bind(PipelineType::AttnResidual)
        || c == Command::Bind(PipelineType::DnOutputResidual)
}

/// How many of the commands add the residual.
pub open spec fn residual_count(cmds: Seq<Command>) -> nat
    decreases cmds.len(),
{
    if cmds.len() == 0 {
        0
    } else {
        residual_count(cmds.drop_last()) + if adds_residual(cmds.last()) {
            1nat
        } else {
            0
        }
    }
}

proof fn lemma_residual_count_joins(a: Seq<Command>, b: Seq<Command>)
    ensures
        residual_count(a + b) == residual_count(a) + residual_count(b),
    decreases b.len(),
{
    if b.len() == 0 {
        assert(a + b =~= a);
    } else {
        lemma_residual_count_joins(a, b.drop_last());
        assert((a + b).drop_last() =~= a + b.drop_last());
    }
}

proof fn lemma_residual_count_step(pt: PipelineType, pc: PushConstants, x: int, y: int)
    ensures
        residual_count(run(pt, pc, x, y)) == if adds_residual(Command::Bind(pt)) {
            1nat
        } else {
            0
        },
        residual_count(step(pt, pc, x, y)) == residual_count(run(pt, pc, x, y)),
        residual_count(seq![Command::Barrier]) == 0,
{
    let c0 = Command::Bind(pt);
    let c1 = Command::Push(pc);
    let c2 = Command::Dispatch(x as u32, y as u32, 1);
    let r = run(pt, pc, x, y);
    assert(r.drop_last() =~= seq![c0, c1]);
    assert(seq![c0, c1].drop_last() =~= seq![c0]);
    assert(seq![c0].drop_last() =~= Seq::empty());
    assert(residual_count(Seq::<Command>::empty()) == 0);
    assert(residual_count(seq![c0]) == if adds_residual(c0) {
        1nat
    } else {
        0
    });
    assert(residual_count(seq![c0, c1]) == residual_count(seq![c0]));
    assert(seq![Command::Barrier].drop_last() =~= Seq::empty());
    lemma_residual_count_joins(r, seq![Command::Barrier]);
}

/// Whatever path a layer takes, its residual is added exactly once.
pub proof fn law_residual_once(
    l: ArenaLayout,
    w: LayerWeights,
    f: FusedPaths,
    layer: u32,
    is_gqa: bool,
    m: u32,
    s: InferenceState,
)
    ensures
        residual_count(layer_commands(l, w, f, layer, is_gqa, m, s)) == 1,
{
    assert forall|pt: PipelineType, pc: PushConstants, x: int, y: int|
        residual_count(#[trigger] run(pt, pc, x, y)) == if adds_residual(Command::Bind(pt)) {
            1nat
        } else {
            0
        } by {
        lemma_residual_count_step(pt, pc, x, y);
    }
    assert forall|pt: PipelineType, pc: PushConstants, x: int, y: int|
        residual_count(#[trigger] step(pt, pc, x, y)) == if adds_residual(Command::Bind(pt)) {
            1nat
        } else {
            0
        } by {
        lemma_residual_count_step(pt, pc, x, y);
    }
    assert forall|a: Seq<Command>, b: Seq<Command>|
        residual_count(#[trigger] (a + b)) == residual_count(a) + residual_count(b) by {
        lemma_residual_count_joins(a, b);
    }
    lemma_residual_count_step(PipelineType::Router, PushConstants::initial(), 0, 0);
}

/// How many of the commands start a kernel.
pub open spec fn dispatch_count(cmds: Seq<Command>) -> nat
    decreases cmds.len(),
{
    if cmds.len() == 0 {
        0
    } else {
        dispatch_count(cmds.drop_last()) + if cmds.last() is Dispatch {
            1nat
        } else {
            0
        }
    }
}

/// A kernel may still be running behind the commands, given whether one may
/// before them.
pub open spec fn running(before: bool, cmds: Seq<Command>) -> bool
    decreases cmds.len(),
{
    if cmds.len() == 0 {
        before
    } else {
        match cmds.last() {
            Command::Dispatch(_, _, _) => true,
            Command::Barrier => false,
            _ => running(before, cmds.drop_last()),
        }
    }
}

/// No kernel starts while another may still be running.
pub open spec fn in_sequence(before: bool, cmds: Seq<Command>) -> bool
    decreases cmds.len(),
{
    if cmds.len() == 0 {
        true
    } else {
        &&& in_sequence(before, cmds.drop_last())
        &&& cmds.last() is Dispatch ==> !running(before, cmds.drop_last())
    }
}

proof fn lemma_commands_join(before: bool, a: Seq<Command>, b: Seq<Command>)
    ensures
        dispatch_count(a + b) == dispatch_count(a) + dispatch_count(b),
        running(before, a + b) == running(running(before, a), b),
        in_sequence(before, a + b) == (in_sequence(before, a) && in_sequence(
            running(before, a),
            b,
        )),
    decreases b.len(),
{
    if b.len() == 0 {
        assert(a + b =~= a);
    } else {
        lemma_commands_join(before, a, b.drop_last());
        assert((a + b).drop_last() =~= a + b.drop_last());
    }
}

proof fn lemma_run_commands(
    before: bool,
    pt: PipelineType,
    pc: PushConstants,
    x: int,
    y: int,
)
    ensures
        dispatch_count(run(pt, pc, x, y)) == 1,
        running(before, run(pt, pc, x, y)),
        in_sequence(before, run(pt, pc, x, y)) == !before,
        dispatch_count(step(pt, pc, x, y)) == 1,
        !running(before, step(pt, pc, x, y)),
        in_sequence(before, step(pt, pc, x, y)) == !before,
        dispatch_count(seq![Command::Barrier]) == 0,
        !running(before, seq![Command::Barrier]),
        in_sequence(before, seq![Command::Barrier]),
{
    let c0 = Command::Bind(pt);
    let c1 = Command::Push(pc);
    let none = Seq::<Command>::empty();
    let r = run(pt, pc, x, y);
    assert(r.drop_last() =~= seq![c0, c1]);
    assert(seq![c0, c1].drop_last() =~= seq![c0]);
    assert(seq![c0].drop_last() =~= none);
    assert(dispatch_count(none) == 0 && running(before, none) == before && in_sequence(
        before,
        none,
    ));
    assert(dispatch_count(seq![c0]) == 0 && running(before, seq![c0]) == before && in_sequence(
        before,
        seq![c0],
    ));
    assert(dispatch_count(seq![c0, c1]) == 0 && running(before, seq![c0, c1]) == before
        && in_sequence(before, seq![c0, c1]));
    assert(seq![Command::Barrier].drop_last() =~= none);
    lemma_commands_join(before, r, seq![Command::Barrier]);
    assert(running(true, none) && in_sequence(true, none));
}

/// A layer starts eleven kernels with full attention and seven without; fused
/// paths leave six and five. Its kernels run one after the other.
pub proof fn law_layer_dispatches(
    l: ArenaLayout,
    w: LayerWeights,
    f: FusedPaths,
    layer: u32,
    is_gqa: bool,
    m: u32,
    s: InferenceState,
)
    ensures
        ({
            let cmds = layer_commands(l, w, f, layer, is_gqa, m, s);
            let fused = takes_fused(f, is_gqa, m);
            &&& dispatch_count(cmds) == if is_gqa {
                if fused {
                    6int
                } else {
                    11
                }
            } else if fused {
                5
            } else {
                7
            }
            &&& in_sequence(false, cmds)
        }),
{
    assert forall|pt: PipelineType, pc: PushConstants, x: int, y: int|
        dispatch_count(#[trigger] run(pt, pc, x, y)) == 1 && running(false, run(pt, pc, x, y))
            && in_sequence(false, run(pt, pc, x, y)) by {
        lemma_run_commands(false, pt, pc, x, y);
    }
    assert forall|pt: PipelineType, pc: PushConstants, x: int, y: int|
        dispatch_count(#[trigger] step(pt, pc, x, y)) == 1 && !running(false, step(pt, pc, x, y))
            && in_sequence(false, step(pt, pc, x, y)) by {
        lemma_run_commands(false, pt, pc, x, y);
    }
    assert forall|a: Seq<Command>, b: Seq<Command>|
        dispatch_count(#[trigger] (a + b)) == dispatch_count(a) + dispatch_count(b) && running(
            false,
            a + b,
        ) == running(running(false, a), b) && in_sequence(false, a + b) == (in_sequence(false, a)
            && in_sequence(running(false, a), b)) by {
        lemma_commands_join(false, a, b);
    }
    lemma_run_commands(true, PipelineType::Router, PushConstants::initial(), 0, 0);
    lemma_run_commands(false, PipelineType::Router, PushConstants::initial(), 0, 0);
}

/// How many of the experts before `n` have a token routed to them.
pub open spec fn busy_experts(routing: Seq<RoutingOutput>, n: nat) -> nat
    decreases n,
{
    if n == 0 {
        0
    } else {
        busy_experts(routing, (n - 1) as nat) + if router::tokens_to(
            routing,
            routing.len(),
            n - 1,
        ) > 0 {
            1nat
        } else {
            0
        }
    }
}

/// In a batch, the shared expert and every expert that a token is routed to
/// start two kernels, and the other experts none. The kernels run one after the
/// other.
pub proof fn law_batch_dispatches(
    l: ArenaLayout,
    w: LayerWeights,
    layer: u32,
    routing: Seq<RoutingOutput>,
    ping: bool,
    n: nat,
)
    requires
        routing.len() > 0,
        n <= w.num_experts <= u16::MAX,
        forall|t: int|
            0 <= t < routing.len() ==> router::routed_exist(#[trigger] routing[t], w.num_experts),
    ensures
        ({
            let cmds = batch_experts(l, w, layer, routing, ping, n).commands;
            &&& dispatch_count(cmds) == 2 + 2 * busy_experts(routing, n)
            &&& in_sequence(false, cmds)
            &&& !running(false, cmds)
        }),
    decreases n,
{
    let none = Seq::<Command>::empty();
    assert(dispatch_count(none) == 0 && !running(false, none) && in_sequence(false, none));
    assert forall|pt: PipelineType, pc: PushConstants, x: int, y: int|
        dispatch_count(#[trigger] step(pt, pc, x, y)) == 1 && !running(false, step(pt, pc, x, y))
            && in_sequence(false, step(pt, pc, x, y)) by {
        lemma_run_commands(false, pt, pc, x, y);
    }
    assert forall|a: Seq<Command>, b: Seq<Command>|
        dispatch_count(#[trigger] (a + b)) == dispatch_count(a) + dispatch_count(b) && running(
            false,
            a + b,
        ) == running(running(false, a), b) && in_sequence(false, a + b) == (in_sequence(false, a)
            && in_sequence(running(false, a), b)) by {
        lemma_commands_join(false, a, b);
    }
    assert(router::routed_exist(routing[0], w.num_experts));
    assert(routing[0].routed[0] < w.num_experts);
    router::lemma_apart_exist(routing, w.num_experts);
    if n == 0 {
        router::lemma_apart_counts(routing, w.num_experts, routing.len(), 0);
    } else {
        router::lemma_apart_counts(routing, w.num_experts, routing.len(), n - 1);
        law_batch_dispatches(l, w, layer, routing, ping, (n - 1) as nat);
    }
}

/// The constants of the kernels of one type that read the matrix at `at`, in
/// the order in which they run.
pub open spec fn kernels(cmds: Seq<Command>, pt: PipelineType, at: u64) -> Seq<PushConstants>
    decreases cmds.len(),
{
    if cmds.len() == 0 {
        Seq::empty()
    } else {
        let before = kernels(cmds.drop_last(), pt, at);
        let n = cmds.len() as int;
        if cmds.last() is Dispatch && n >= 3 && cmds[n - 3] == Command::Bind(pt) {
            match cmds[n - 2] {
                Command::Push(pc) => if pc.weights_offset == at {
                    before.push(pc)
                } else {
                    before
                },
                _ => before,
            }
        } else {
            before
        }
    }
}

proof fn lemma_kernels_step(
    a: Seq<Command>,
    pt: PipelineType,
    at: u64,
    q: PipelineType,
    pc: PushConstants,
    x: int,
    y: int,
)
    ensures
        kernels(a + step(q, pc, x, y), pt, at) == if q == pt && pc.weights_offset == at {
            kernels(a, pt, at).push(pc)
        } else {
            kernels(a, pt, at)
        },
{
    let s = a + step(q, pc, x, y);
    let c3 = s.drop_last();
    let c2 = c3.drop_last();
    let c1 = c2.drop_last();
    assert(c1.drop_last() =~= a);
    assert(s.last() == Command::Barrier);
    assert(c3.last() is Dispatch);
    assert(c2.last() == Command::Push(pc));
    assert(c1.last() == Command::Bind(q));
    assert(kernels(c1, pt, at) == kernels(a, pt, at));
    assert(kernels(c2, pt, at) == kernels(a, pt, at));
    assert(c3[c3.len() - 3] == Command::Bind(q));
    assert(c3[c3.len() - 2] == Command::Push(pc));
    assert(kernels(s, pt, at) == kernels(c3, pt, at));
}

/// The matrices of a layer stand at different places: no two of its experts
/// share a gate or a down projection, nor does one with the shared expert.
pub open spec fn matrices_differ(w: LayerWeights, layer: u32) -> bool {
    &&& forall|e: int|
        0 <= e < w.num_experts ==> (#[trigger] expert_weights(w, layer, e)).w1 != shared_weights(
            w,
            layer,
        ).w1 && expert_weights(w, layer, e).w2 != shared_weights(w, layer).w2
    &&& forall|d: int, e: int|
        0 <= d < e < w.num_experts ==> (#[trigger] expert_weights(w, layer, d)).w1 != (
        #[trigger] expert_weights(w, layer, e)).w1 && expert_weights(w, layer, d).w2
            != expert_weights(w, layer, e).w2
}

/// The matrices of `x` are read by one gate and one down kernel over `m` tokens,
/// or by none when `m` is zero. The kernels read and write the buffer at `hidden`.
pub open spec fn runs_once(cmds: Seq<Command>, x: ExpertWeights, m: nat, hidden: u64) -> bool {
    let gates = kernels(cmds, PipelineType::W1W3Fused, x.w1);
    let downs = kernels(cmds, PipelineType::W2Scatter, x.w2);
    if m == 0 {
        gates.len() == 0 && downs.len() == 0
    } else {
        &&& gates.len() == 1
        &&& gates[0].M == m
        &&& gates[0].input_offset == hidden
        &&& gates[0].routing_weights_off == x.w3
        &&& downs.len() == 1
        &&& downs[0].M == m
        &&& downs[0].output_offset == hidden
    }
}

/// What an expert adds to the kernels that read the matrices of another one, or
/// of itself.
proof fn lemma_batch_kernels(
    l: ArenaLayout,
    w: LayerWeights,
    x: ExpertWeights,
    apart: Seq<RoutingOutput>,
    e: nat,
    ping: bool,
    r: Recording,
    y: ExpertWeights,
)
    requires
        router::count(apart, router::slot_count(apart) as nat, e as int) <= u32::MAX,
    ensures
        ({
            let m = router::count(apart, router::slot_count(apart) as nat, e as int);
            let cmds = batch_expert(l, w, x, apart, e, ping, r).commands;
            &&& x.w1 != y.w1 || m == 0 ==> kernels(cmds, PipelineType::W1W3Fused, y.w1) == kernels(
                r.commands,
                PipelineType::W1W3Fused,
                y.w1,
            )
            &&& x.w2 != y.w2 || m == 0 ==> kernels(cmds, PipelineType::W2Scatter, y.w2) == kernels(
                r.commands,
                PipelineType::W2Scatter,
                y.w2,
            )
            &&& x == y && runs_once(r.commands, x, 0, hidden_out(l, ping)) ==> runs_once(
                cmds,
                x,
                m,
                hidden_out(l, ping),
            )
        }),
{
    let all = router::slot_count(apart) as nat;
    let n = router::count(apart, all, e as int) as int;
    let first = router::below(apart, all, e) as int;
    if n > 0 {
        let tokens = (l.routing_token_base + first * 2) as u64;
        let weights = (l.routing_weight_base + first * 4) as u64;
        let gate = gate_pc(l, w, x, n, ping, tokens, r.pc);
        let down = PushConstants {
            routing_weights_off: weights,
            ..down_pc(l, w, x, n, ping, Scale::Ninth, gate)
        };
        let cmds = r.commands + expert_steps(w, n, gate, down);
        let half = r.commands + step(
            PipelineType::W1W3Fused,
            gate,
            rows(n),
            cols(w.intermediate_size * 2),
        );
        assert(cmds =~= half + step(
            PipelineType::W2Scatter,
            down,
            rows(n),
            cols(w.hidden_size as int),
        ));
        lemma_two_kernels(w, r.commands, half, cmds, n, gate, down, PipelineType::W1W3Fused, y.w1);
        lemma_two_kernels(w, r.commands, half, cmds, n, gate, down, PipelineType::W2Scatter, y.w2);
    }
}

proof fn lemma_two_kernels(
    w: LayerWeights,
    a: Seq<Command>,
    half: Seq<Command>,
    cmds: Seq<Command>,
    n: int,
    gate: PushConstants,
    down: PushConstants,
    pt: PipelineType,
    at: u64,
)
    requires
        half == a + step(
            PipelineType::W1W3Fused,
            gate,
            rows(n),
            cols(w.intermediate_size * 2),
        ),
        cmds == half + step(PipelineType::W2Scatter, down, rows(n), cols(w.hidden_size as int)),
        pt is W1W3Fused || pt is W2Scatter,
    ensures
        pt is W1W3Fused ==> kernels(cmds, pt, at) == if gate.weights_offset == at {
            kernels(a, pt, at).push(gate)
        } else {
            kernels(a, pt, at)
        },
        pt is W2Scatter ==> kernels(cmds, pt, at) == if down.weights_offset == at {
            kernels(a, pt, at).push(down)
        } else {
            kernels(a, pt, at)
        },
{
    lemma_kernels_step(
        a,
        pt,
        at,
        PipelineType::W1W3Fused,
        gate,
        rows(n),
        cols(w.intermediate_size * 2),
    );
    lemma_kernels_step(
        half,
        pt,
        at,
        PipelineType::W2Scatter,
        down,
        rows(n),
        cols(w.hidden_size as int),
    );
}

/// After the shared expert and the first `n` experts of a batch, expert `e` has
/// run over its tokens if it is one of them, and not at all otherwise.
proof fn lemma_expert_runs_once(
    l: ArenaLayout,
    w: LayerWeights,
    layer: u32,
    routing: Seq<RoutingOutput>,
    ping: bool,
    n: nat,
    e: int,
)
    requires
        routing.len() > 0,
        router::slot_count(routing) <= u32::MAX,
        n <= w.num_experts <= u16::MAX,
        matrices_differ(w, layer),
        forall|t: int|
            0 <= t < routing.len() ==> router::routed_exist(#[trigger] routing[t], w.num_experts),
        0 <= e < w.num_experts,
    ensures
        ({
            let all = router::slot_count(routing) as nat;
            let apart = router::shared_apart(routing, w.num_experts);
            let cmds = batch_experts(l, w, layer, routing, ping, n).commands;
            &&& runs_once(cmds, shared_weights(w, layer), routing.len(), hidden_out(l, ping))
            &&& runs_once(
                cmds,
                expert_weights(w, layer, e),
                if e < n {
                    router::count(apart, all, e)
                } else {
                    0
                },
                hidden_out(l, ping),
            )
        }),
    decreases n,
{
    let all = router::slot_count(routing) as nat;
    let apart = router::shared_apart(routing, w.num_experts);
    let shared = shared_weights(w, layer);
    let x = expert_weights(w, layer, e);
    assert(x.w1 != shared.w1 && x.w2 != shared.w2);
    router::lemma_apart_exist(routing, w.num_experts);
    router::lemma_apart_counts(routing, w.num_experts, routing.len(), e);
    if n == 0 {
        let start = Recording { commands: Seq::empty(), pc: PushConstants::initial() };
        let id = w.num_experts as nat;
        lemma_batch_kernels(l, w, shared, apart, id, ping, start, shared);
        lemma_batch_kernels(l, w, shared, apart, id, ping, start, x);
    } else {
        let d = n - 1;
        let z = expert_weights(w, layer, d);
        let r = batch_experts(l, w, layer, routing, ping, d as nat);
        router::lemma_count_bound(apart, all, d);
        lemma_expert_runs_once(l, w, layer, routing, ping, d as nat, e);
        assert(z.w1 != shared.w1 && z.w2 != shared.w2);
        lemma_batch_kernels(l, w, z, apart, d as nat, ping, r, shared);
        lemma_batch_kernels(l, w, z, apart, d as nat, ping, r, x);
        if d != e {
            assert(z.w1 != x.w1 && z.w2 != x.w2);
        }
    }
}

/// In a batch, the matrices of an expert are read by one gate and one down
/// kernel, over just the tokens that are routed to it, and by none if there are
/// no such tokens. The shared matrices are read by one such pair over all tokens.
/// All of them read and write the hidden state that the next layer reads.
pub proof fn law_batch_runs_each_expert_once(
    l: ArenaLayout,
    w: LayerWeights,
    f: FusedPaths,
    layer: u32,
    routing: Seq<RoutingOutput>,
    m: u32,
    ping: bool,
    plan: MoePlan,
    e: int,
)
    requires
        routing.len() > 1,
        moe_fits(l, w, layer, routing, m),
        runs_experts(l, w, f, layer, routing, m, ping, plan),
        matrices_differ(w, layer),
        forall|t: int| 0 <= t < routing.len() ==> router::routed_differ(#[trigger] routing[t]),
        0 <= e < w.num_experts,
    ensures
        runs_once(plan.commands@, shared_weights(w, layer), routing.len(), hidden_out(l, ping)),
        runs_once(
            plan.commands@,
            expert_weights(w, layer, e),
            router::tokens_to(routing, routing.len(), e),
            hidden_out(l, ping),
        ),
{
    lemma_expert_runs_once(l, w, layer, routing, ping, w.num_experts as nat, e);
    router::lemma_apart_counts(routing, w.num_experts, routing.len(), e);
}

/// A token on its own runs the shared expert and its routed ones with two
/// kernels each, one after the other.
pub proof fn law_token_runs_nine_experts(
    l: ArenaLayout,
    w: LayerWeights,
    layer: u32,
    routing: Seq<RoutingOutput>,
    m: u32,
    ping: bool,
    n: nat,
)
    ensures
        ({
            let cmds = single_experts(l, w, layer, routing, m, ping, n).commands;
            &&& dispatch_count(cmds) == 2 + 2 * n
            &&& in_sequence(false, cmds)
            &&& !running(false, cmds)
        }),
    decreases n,
{
    let none = Seq::<Command>::empty();
    assert(dispatch_count(none) == 0 && !running(false, none) && in_sequence(false, none));
    assert forall|pt: PipelineType, pc: PushConstants, x: int, y: int|
        dispatch_count(#[trigger] step(pt, pc, x, y)) == 1 && !running(false, step(pt, pc, x, y))
            && in_sequence(false, step(pt, pc, x, y)) by {
        lemma_run_commands(false, pt, pc, x, y);
    }
    assert forall|a: Seq<Command>, b: Seq<Command>|
        dispatch_count(#[trigger] (a + b)) == dispatch_count(a) + dispatch_count(b) && running(
            false,
            a + b,
        ) == running(running(false, a), b) && in_sequence(false, a + b) == (in_sequence(false, a)
            && in_sequence(running(false, a), b)) by {
        lemma_commands_join(false, a, b);
    }
    if n > 0 {
        law_token_runs_nine_experts(l, w, layer, routing, m, ping, (n - 1) as nat);
    }
}

/// The heads start one kernel for the next token and three for each further
/// one, one after the other.
pub proof fn law_head_dispatches(l: ArenaLayout, w: LayerWeights, ping: bool, n: nat)
    ensures
        ({
            let cmds = head_recording(l, w, ping, n).commands;
            &&& dispatch_count(cmds) == 1 + 3 * n
            &&& in_sequence(false, cmds)
            &&& !running(false, cmds)
        }),
    decreases n,
{
    assert forall|pt: PipelineType, pc: PushConstants, x: int, y: int|
        dispatch_count(#[trigger] step(pt, pc, x, y)) == 1 && !running(false, step(pt, pc, x, y))
            && in_sequence(false, step(pt, pc, x, y)) by {
        lemma_run_commands(false, pt, pc, x, y);
    }
    assert forall|a: Seq<Command>, b: Seq<Command>|
        dispatch_count(#[trigger] (a + b)) == dispatch_count(a) + dispatch_count(b) && running(
            false,
            a + b,
        ) == running(running(false, a), b) && in_sequence(false, a + b) == (in_sequence(false, a)
            && in_sequence(running(false, a), b)) by {
        lemma_commands_join(false, a, b);
    }
    if n > 0 {
        law_head_dispatches(l, w, ping, (n - 1) as nat);
    }
}

} // verus!
