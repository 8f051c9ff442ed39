//! Forward passes as chains of dispatches.

use vstd::prelude::*;

use crate::chain::constants;
use crate::chain::constants::{
    AttentionPC, LinearPC, MoEPC, PushBlock, RMSNormPC, RouterPC, SamplePC,
};
use crate::chain::dispatch;
use crate::chain::dispatch::{
    BarrierKind, BufferBinding, DispatchChain, DispatchStep, StepPlan,
};
use crate::chain::error::Error;
use crate::chain::gguf::ModelConfig;
use crate::chain::kv_cache;
use crate::chain::kv_cache::KvCache;
use crate::chain::memory;
use crate::chain::memory::{Arena, Buffer};
use crate::chain::shaders;

verus! {

/// Ceiling integer division.
pub fn div_up(a: u32, b: u32) -> (r: u32)
    requires
        b > 0,
        a + b - 1 <= u32::MAX,
    ensures
        r == div_ceil(a as int, b as int),
{
    (a + (b - 1)) / b
}

/// The quotient, rounded up.
pub open spec fn div_ceil(a: int, b: int) -> int {
    (a + b - 1) / b
}

/// `div_up` is the least number of groups of `b` that cover `a`.
pub proof fn law_div_up_covers(a: int, b: int)
    requires
        a >= 0,
        b > 0,
    ensures
        div_ceil(a, b) * b >= a,
        (div_ceil(a, b) - 1) * b < a,
{
    let q = div_ceil(a, b);
    vstd::arithmetic::div_mod::lemma_fundamental_div_mod(a + b - 1, b);
    assert(b * q == q * b) by (nonlinear_arith);
    assert((q - 1) * b == q * b - b) by (nonlinear_arith);
}

/// One, as a 32-bit float.
pub const ONE_BITS: u32 = 0x3f80_0000;

/// 256, as a 32-bit float.
pub const TWO_HUNDRED_FIFTY_SIX_BITS: u32 = 0x4380_0000;

/// Group counts and projection sizes of this model are 32-bit numbers.
pub open spec fn dims_fit(c: ModelConfig) -> bool {
    &&& c.hidden_dim + 255 <= u32::MAX
    &&& c.ffn_intermediate + 255 <= u32::MAX
    &&& c.vocab_size + 255 <= u32::MAX
    &&& c.n_heads_q * c.head_dim <= u32::MAX
}

/// A step without buffer bindings.
pub open spec fn step(
    pipeline: Seq<char>,
    words: Seq<u32>,
    x: int,
    y: int,
    barrier: BarrierKind,
) -> StepPlan {
    StepPlan {
        pipeline,
        words,
        x: x as u32,
        y: y as u32,
        z: 1,
        buffers: Seq::<BufferBinding>::empty(),
        barrier,
    }
}

pub open spec fn rms_words(rows: u32, dim: u32, eps_bits: u32) -> Seq<u32> {
    seq![rows, dim, eps_bits]
}

/// The state-space branch of a layer.
pub open spec fn ssm_plan(c: ModelConfig) -> Seq<StepPlan> {
    let dim = c.hidden_dim;
    seq![
        step("ssm_norm"@, rms_words(128, dim, c.eps_bits), 1, 1, BarrierKind::ExecOnly),
        step("ssm_proj"@, rms_words(32, dim, 0), 1, 1, BarrierKind::ExecOnly),
        step("ssm_conv"@, rms_words(4, 8192, 0), 32, 1, BarrierKind::ExecOnly),
        step(
            "ssm_scan"@,
            rms_words(32, 16, TWO_HUNDRED_FIFTY_SIX_BITS),
            16,
            1,
            BarrierKind::ExecOnly,
        ),
        step(
            "ssm_out"@,
            rms_words(dim, 4096, 0),
            div_ceil(dim as int, 256),
            1,
            BarrierKind::ExecOnly,
        ),
    ]
}

/// The attention branch of a layer, with the residual that closes it.
pub open spec fn attention_plan(c: ModelConfig, max_seq: u32, seq_len: u32) -> Seq<StepPlan> {
    let dim = c.hidden_dim;
    let tiles = div_ceil(dim as int, 256);
    seq![
        step("rms_norm"@, rms_words(seq_len, dim, c.eps_bits), tiles, 1, BarrierKind::ExecOnly),
        step(
            "qkv"@,
            seq![dim, (c.n_heads_q * c.head_dim) as u32, 0, 0],
            div_ceil(dim as int, 64),
            c.n_heads_q as int,
            BarrierKind::ExecOnly,
        ),
        step(
            "rope"@,
            seq![seq_len, c.n_heads_q, c.n_heads_kv, c.head_dim, 0],
            c.n_heads_q as int,
            1,
            BarrierKind::ExecOnly,
        ),
        step(
            "attention"@,
            seq![seq_len, c.n_heads_q, c.n_heads_kv, c.head_dim, max_seq],
            c.n_heads_q as int,
            1,
            BarrierKind::ExecOnly,
        ),
        step(
            "kv_write"@,
            seq![seq_len, c.n_heads_q, c.n_heads_kv, c.head_dim, max_seq],
            c.n_heads_kv as int,
            1,
            BarrierKind::MemoryFlush,
        ),
        step("residual_add"@, rms_words(seq_len, dim, 0), tiles, 1, BarrierKind::ExecOnly),
    ]
}

/// The norm and the router before the experts.
pub open spec fn router_plan(c: ModelConfig, seq_len: u32) -> Seq<StepPlan> {
    let dim = c.hidden_dim;
    seq![
        step(
            "rms_norm"@,
            rms_words(seq_len, dim, c.eps_bits),
            div_ceil(dim as int, 256),
            1,
            BarrierKind::ExecOnly,
        ),
        step(
            "router_topk"@,
            seq![dim, c.n_experts, c.n_active_experts, c.n_shared_experts],
            1,
            1,
            BarrierKind::ExecOnly,
        ),
    ]
}

/// One dispatch of `pipeline` for each of the first `n` active experts.
pub open spec fn expert_plan(c: ModelConfig, pipeline: Seq<char>, n: nat) -> Seq<StepPlan> {
    Seq::new(
        n,
        |e: int|
            step(
                pipeline,
                seq![c.hidden_dim, c.ffn_intermediate, e as u32, 0],
                div_ceil(c.hidden_dim as int, 64),
                1,
                BarrierKind::ExecOnly,
            ),
    )
}

/// The activation of all experts.
pub open spec fn silu_plan(c: ModelConfig) -> Seq<StepPlan> {
    seq![
        step(
            "silu_mult"@,
            seq![c.hidden_dim, c.ffn_intermediate, 0, 0],
            div_ceil(c.ffn_intermediate as int, 256),
            c.n_active_experts as int,
            BarrierKind::ExecOnly,
        ),
    ]
}

/// The weighted sum of the experts, and the residual that closes the layer.
pub open spec fn combine_plan(c: ModelConfig, seq_len: u32) -> Seq<StepPlan> {
    let dim = c.hidden_dim;
    let tiles = div_ceil(dim as int, 256);
    seq![
        step(
            "moe_combine"@,
            seq![dim, c.n_experts, c.n_active_experts, 0],
            tiles,
            1,
            BarrierKind::ExecOnly,
        ),
        step("residual_add"@, rms_words(seq_len, dim, 0), tiles, 1, BarrierKind::ExecOnly),
    ]
}

/// Every dispatch of one transformer layer over `seq_len` tokens.
pub open spec fn layer_plan(c: ModelConfig, max_seq: u32, seq_len: u32) -> Seq<StepPlan> {
    ssm_plan(c) + attention_plan(c, max_seq, seq_len) + router_plan(c, seq_len) + expert_plan(
        c,
        "moe_gate_up"@,
        c.n_active_experts as nat,
    ) + silu_plan(c) + expert_plan(c, "moe_down"@, c.n_active_experts as nat) + combine_plan(
        c,
        seq_len,
    )
}

/// The first `n` layers.
pub open spec fn layers_plan(c: ModelConfig, max_seq: u32, seq_len: u32, n: nat) -> Seq<StepPlan>
    decreases n,
{
    if n == 0 {
        Seq::empty()
    } else {
        layers_plan(c, max_seq, seq_len, (n - 1) as nat) + layer_plan(c, max_seq, seq_len)
    }
}

/// The embedding of `seq_len` tokens.
pub open spec fn embed_plan(seq_len: u32) -> Seq<StepPlan> {
    seq![step("embed"@, seq![seq_len, 0, 0, 0, 0], seq_len as int, 1, BarrierKind::ExecOnly)]
}

/// The projection to the vocabulary, over `rows` positions.
pub open spec fn head_plan(c: ModelConfig, rows: u32) -> Seq<StepPlan> {
    seq![
        step(
            "lm_head"@,
            seq![c.hidden_dim, c.vocab_size, 0, 0],
            div_ceil(c.vocab_size as int, 256),
            rows as int,
            BarrierKind::ExecOnly,
        ),
    ]
}

/// The choice of a token, for the host to read.
pub open spec fn sample_plan(c: ModelConfig) -> Seq<StepPlan> {
    seq![
        step(
            "sample"@,
            seq![c.vocab_size, ONE_BITS, ONE_BITS, 0],
            1,
            1,
            BarrierKind::HostRead,
        ),
    ]
}

/// A forward pass over `seq_len` tokens that ends in a sampled token.
pub open spec fn forward_plan(c: ModelConfig, max_seq: u32, seq_len: u32) -> Seq<StepPlan> {
    embed_plan(seq_len) + layers_plan(c, max_seq, seq_len, c.n_layers as nat) + head_plan(c, 1)
        + sample_plan(c)
}

/// A forward pass over draft tokens that predicts a token at every position.
pub open spec fn verify_plan(c: ModelConfig, max_seq: u32, seq_len: u32) -> Seq<StepPlan> {
    embed_plan(seq_len) + layers_plan(c, max_seq, seq_len, c.n_layers as nat) + head_plan(
        c,
        seq_len,
    )
}

/// Appends a step without buffer bindings.
pub(crate) fn add_step<T: PushBlock>(
    chain: &mut DispatchChain,
    pipeline_name: &'static str,
    pc: &T,
    x: u32,
    y: u32,
    barrier: BarrierKind,
)
    ensures
        forall|start: Seq<DispatchStep>, plan: Seq<StepPlan>| #[trigger]
            dispatch::continues(start, old(chain)@, plan) ==> dispatch::continues(
                start,
                final(chain)@,
                plan.push(step(pipeline_name@, pc.words(), x as int, y as int, barrier)),
            ),
{
    let s: DispatchStep = DispatchStep {
        pipeline_name,
        push_data: constants::pc_bytes(pc),
        workgroup_x: x,
        workgroup_y: y,
        workgroup_z: 1,
        buffers: Vec::new(),
        barrier,
    };
    chain.add(s);
}

/// Appends one dispatch of `pipeline_name` for each active expert.
fn add_expert_steps(chain: &mut DispatchChain, pipeline_name: &'static str, c: &ModelConfig)
    requires
        dims_fit(*c),
    ensures
        forall|start: Seq<DispatchStep>, plan: Seq<StepPlan>| #[trigger]
            dispatch::continues(start, old(chain)@, plan) ==> dispatch::continues(
                start,
                final(chain)@,
                plan + expert_plan(*c, pipeline_name@, c.n_active_experts as nat),
            ),
{
    let mut e: u32 = 0;
    proof {
        assert forall|start: Seq<DispatchStep>, plan: Seq<StepPlan>| #[trigger]
            dispatch::continues(start, chain@, plan) implies dispatch::continues(
            start,
            chain@,
            plan + expert_plan(*c, pipeline_name@, 0),
        ) by {
            assert(plan + expert_plan(*c, pipeline_name@, 0) =~= plan);
        }
    }
    while e < c.n_active_experts
        invariant
            e <= c.n_active_experts,
            dims_fit(*c),
            forall|start: Seq<DispatchStep>, plan: Seq<StepPlan>| #[trigger]
                dispatch::continues(start, old(chain)@, plan) ==> dispatch::continues(
                    start,
                    chain@,
                    plan + expert_plan(*c, pipeline_name@, e as nat),
                ),
        decreases c.n_active_experts - e,
    {
        let ghost before = chain@;
        let pc: MoEPC = MoEPC {
            dim: c.hidden_dim,
            intermediate: c.ffn_intermediate,
            expert_idx: e,
            is_shared: 0,
        };
        add_step(
            chain,
            pipeline_name,
            &pc,
            div_up(c.hidden_dim, 64),
            1,
            BarrierKind::ExecOnly,
        );
        proof {
            assert forall|start: Seq<DispatchStep>, plan: Seq<StepPlan>| #[trigger]
                dispatch::continues(start, old(chain)@, plan) implies dispatch::continues(
                start,
                chain@,
                plan + expert_plan(*c, pipeline_name@, (e + 1) as nat),
            ) by {
                let so_far = plan + expert_plan(*c, pipeline_name@, e as nat);
                assert(dispatch::continues(start, before, so_far));
                let last = step(
                    pipeline_name@,
                    pc.words(),
                    div_ceil(c.hidden_dim as int, 64),
                    1,
                    BarrierKind::ExecOnly,
                );
                assert(so_far.push(last) =~= plan + expert_plan(
                    *c,
                    pipeline_name@,
                    (e + 1) as nat,
                ));
            }
        }
        e = e + 1;
    }
}

/// The places of the compute buffers in the arena.
pub struct EngineBuffers {
    pub hidden_state: Buffer,
    pub hidden_fp32: Buffer,
    pub q: Buffer,
    pub k: Buffer,
    pub v: Buffer,
    pub attn_output: Buffer,
    pub gate_logits: Buffer,
    pub moe_intermediate: Buffer,
    pub moe_output: Buffer,
    pub logits: Buffer,
    pub token_out: Buffer,
}

pub struct Engine {
    pub config: ModelConfig,
    pub kv_cache: KvCache,
    pub buffers: EngineBuffers,
}

impl Engine {
    /// Append every compute dispatch for one transformer layer to `chain`.
    ///
    /// `seq_len` is the number of tokens being processed (batch size during
    /// prefill, 1 during decode). The dispatches are the same for every layer.
    pub fn build_layer_chain(&self, chain: &mut DispatchChain, seq_len: u32)
        requires
            dims_fit(self.config),
        ensures
            dispatch::continues(
                old(chain)@,
                final(chain)@,
                layer_plan(self.config, self.kv_cache.max_seq, seq_len),
            ),
    {
        assert(dispatch::continues(chain@, chain@, Seq::empty()));
        let c: &ModelConfig = &self.config;
        let max_seq: u32 = self.kv_cache.max_seq;
        self.add_ssm_steps(chain);
        self.add_attention_steps(chain, seq_len);
        self.add_router_steps(chain, seq_len);
        add_expert_steps(chain, "moe_gate_up", c);
        let silu: MoEPC = MoEPC {
            dim: c.hidden_dim,
            intermediate: c.ffn_intermediate,
            expert_idx: 0,
            is_shared: 0,
        };
        add_step(
            chain,
            "silu_mult",
            &silu,
            div_up(c.ffn_intermediate, 256),
            c.n_active_experts,
            BarrierKind::ExecOnly,
        );
        add_expert_steps(chain, "moe_down", c);
        self.add_combine_steps(chain, seq_len);
        proof {
            let n = c.n_active_experts as nat;
            let p1 = Seq::<StepPlan>::empty() + ssm_plan(*c) + attention_plan(*c, max_seq, seq_len)
                + router_plan(*c, seq_len) + expert_plan(*c, "moe_gate_up"@, n);
            assert(p1.push(silu_plan(*c)[0]) =~= p1 + silu_plan(*c));
            let p2 = p1.push(silu_plan(*c)[0]) + expert_plan(*c, "moe_down"@, n) + combine_plan(
                *c,
                seq_len,
            );
            assert(p2 =~= layer_plan(*c, max_seq, seq_len));
        }
    }

    fn add_ssm_steps(&self, chain: &mut DispatchChain)
        requires
            dims_fit(self.config),
        ensures
            forall|start: Seq<DispatchStep>, plan: Seq<StepPlan>| #[trigger]
                dispatch::continues(start, old(chain)@, plan) ==> dispatch::continues(
                    start,
                    final(chain)@,
                    plan + ssm_plan(self.config),
                ),
    {
        let dim: u32 = self.config.hidden_dim;
        let eps_bits: u32 = self.config.eps_bits;
        // Group norm over a weight of 128 elements.
        let norm: RMSNormPC = RMSNormPC { rows: 128, dim, eps_bits };
        add_step(chain, "ssm_norm", &norm, 1, 1, BarrierKind::ExecOnly);
        // Hidden state to alpha and beta, 32 each.
        let proj: RMSNormPC = RMSNormPC { rows: 32, dim, eps_bits: 0 };
        add_step(chain, "ssm_proj", &proj, 1, 1, BarrierKind::ExecOnly);
        // Kernel of 4 over 8192 channels.
        let conv: RMSNormPC = RMSNormPC { rows: 4, dim: 8192, eps_bits: 0 };
        add_step(chain, "ssm_conv", &conv, div_up(8192, 256), 1, BarrierKind::ExecOnly);
        // 16 groups, state of 32, 256 channels per group.
        let scan: RMSNormPC = RMSNormPC {
            rows: 32,
            dim: 16,
            eps_bits: TWO_HUNDRED_FIFTY_SIX_BITS,
        };
        add_step(chain, "ssm_scan", &scan, 16, 1, BarrierKind::ExecOnly);
        // 4096 channels back to the hidden state.
        let out: RMSNormPC = RMSNormPC { rows: dim, dim: 4096, eps_bits: 0 };
        add_step(chain, "ssm_out", &out, div_up(dim, 256), 1, BarrierKind::ExecOnly);
        proof {
            let all = ssm_plan(self.config);
            assert forall|start: Seq<DispatchStep>, plan: Seq<StepPlan>| #[trigger]
                dispatch::continues(start, old(chain)@, plan) implies dispatch::continues(
                start,
                chain@,
                plan + all,
            ) by {
                assert(plan.push(all[0]).push(all[1]).push(all[2]).push(all[3]).push(all[4])
                    =~= plan + all);
            }
        }
    }

    fn add_attention_steps(&self, chain: &mut DispatchChain, seq_len: u32)
        requires
            dims_fit(self.config),
        ensures
            forall|start: Seq<DispatchStep>, plan: Seq<StepPlan>| #[trigger]
                dispatch::continues(start, old(chain)@, plan) ==> dispatch::continues(
                    start,
                    final(chain)@,
                    plan + attention_plan(self.config, self.kv_cache.max_seq, seq_len),
                ),
    {
        let dim: u32 = self.config.hidden_dim;
        let n_heads: u32 = self.config.n_heads_q;
        let n_kv_heads: u32 = self.config.n_heads_kv;
        let head_dim: u32 = self.config.head_dim;
        let norm: RMSNormPC = RMSNormPC { rows: seq_len, dim, eps_bits: self.config.eps_bits };
        add_step(chain, "rms_norm", &norm, div_up(dim, 256), 1, BarrierKind::ExecOnly);
        let qkv: LinearPC = LinearPC { in_dim: dim, out_dim: n_heads * head_dim, pad: [0u32; 2] };
        add_step(chain, "qkv", &qkv, div_up(dim, 64), n_heads, BarrierKind::ExecOnly);
        let rope: AttentionPC = AttentionPC {
            seq_len,
            n_heads,
            n_kv_heads,
            head_dim,
            max_seq_len: 0,
        };
        add_step(chain, "rope", &rope, n_heads, 1, BarrierKind::ExecOnly);
        let attention: AttentionPC = AttentionPC {
            seq_len,
            n_heads,
            n_kv_heads,
            head_dim,
            max_seq_len: self.kv_cache.max_seq,
        };
        add_step(chain, "attention", &attention, n_heads, 1, BarrierKind::ExecOnly);
        // The next token needs to see the new keys and values.
        add_step(chain, "kv_write", &attention, n_kv_heads, 1, BarrierKind::MemoryFlush);
        let residual: RMSNormPC = RMSNormPC { rows: seq_len, dim, eps_bits: 0 };
        add_step(chain, "residual_add", &residual, div_up(dim, 256), 1, BarrierKind::ExecOnly);
        proof {
            let all = attention_plan(self.config, self.kv_cache.max_seq, seq_len);
            assert(qkv.words() =~= all[1].words);
            assert forall|start: Seq<DispatchStep>, plan: Seq<StepPlan>| #[trigger]
                dispatch::continues(start, old(chain)@, plan) implies dispatch::continues(
                start,
                chain@,
                plan + all,
            ) by {
                assert(plan.push(all[0]).push(all[1]).push(all[2]).push(all[3]).push(all[4]).push(
                    all[5],
                ) =~= plan + all);
            }
        }
    }

    fn add_router_steps(&self, chain: &mut DispatchChain, seq_len: u32)
        requires
            dims_fit(self.config),
        ensures
            forall|start: Seq<DispatchStep>, plan: Seq<StepPlan>| #[trigger]
                dispatch::continues(start, old(chain)@, plan) ==> dispatch::continues(
                    start,
                    final(chain)@,
                    plan + router_plan(self.config, seq_len),
                ),
    {
        let dim: u32 = self.config.hidden_dim;
        let norm: RMSNormPC = RMSNormPC { rows: seq_len, dim, eps_bits: self.config.eps_bits };
        add_step(chain, "rms_norm", &norm, div_up(dim, 256), 1, BarrierKind::ExecOnly);
        let router: RouterPC = RouterPC {
            dim,
            n_experts: self.config.n_experts,
            n_active: self.config.n_active_experts,
            n_shared: self.config.n_shared_experts,
        };
        add_step(chain, "router_topk", &router, 1, 1, BarrierKind::ExecOnly);
        proof {
            let all = router_plan(self.config, seq_len);
            assert forall|start: Seq<DispatchStep>, plan: Seq<StepPlan>| #[trigger]
                dispatch::continues(start, old(chain)@, plan) implies dispatch::continues(
                start,
                chain@,
                plan + all,
            ) by {
                assert(plan.push(all[0]).push(all[1]) =~= plan + all);
            }
        }
    }

    fn add_combine_steps(&self, chain: &mut DispatchChain, seq_len: u32)
        requires
            dims_fit(self.config),
        ensures
            forall|start: Seq<DispatchStep>, plan: Seq<StepPlan>| #[trigger]
                dispatch::continues(start, old(chain)@, plan) ==> dispatch::continues(
                    start,
                    final(chain)@,
                    plan + combine_plan(self.config, seq_len),
                ),
    {
        let dim: u32 = self.config.hidden_dim;
        let combine: RouterPC = RouterPC {
            dim,
            n_experts: self.config.n_experts,
            n_active: self.config.n_active_experts,
            n_shared: 0,
        };
        add_step(chain, "moe_combine", &combine, div_up(dim, 256), 1, BarrierKind::ExecOnly);
        let residual: RMSNormPC = RMSNormPC { rows: seq_len, dim, eps_bits: 0 };
        add_step(chain, "residual_add", &residual, div_up(dim, 256), 1, BarrierKind::ExecOnly);
        proof {
            let all = combine_plan(self.config, seq_len);
            assert forall|start: Seq<DispatchStep>, plan: Seq<StepPlan>| #[trigger]
                dispatch::continues(start, old(chain)@, plan) implies dispatch::continues(
                start,
                chain@,
                plan + all,
            ) by {
                assert(plan.push(all[0]).push(all[1]) =~= plan + all);
            }
        }
    }

    /// The embedding of `seq_len` tokens and all layers over them.
    fn embed_and_layers(&self, seq_len: u32) -> (chain: DispatchChain)
        requires
            dims_fit(self.config),
        ensures
            dispatch::continues(
                Seq::empty(),
                chain@,
                embed_plan(seq_len) + layers_plan(
                    self.config,
                    self.kv_cache.max_seq,
                    seq_len,
                    self.config.n_layers as nat,
                ),
            ),
    {
        let ghost none = Seq::<DispatchStep>::empty();
        let mut chain: DispatchChain = DispatchChain::new();
        assert(dispatch::continues(none, chain@, Seq::empty()));
        let embed: AttentionPC = AttentionPC {
            seq_len,
            n_heads: 0,
            n_kv_heads: 0,
            head_dim: 0,
            max_seq_len: 0,
        };
        add_step(&mut chain, "embed", &embed, seq_len, 1, BarrierKind::ExecOnly);
        assert(Seq::<StepPlan>::empty().push(embed_plan(seq_len)[0]) =~= embed_plan(seq_len)
            + layers_plan(self.config, self.kv_cache.max_seq, seq_len, 0));
        let mut layer: u32 = 0;
        while layer < self.config.n_layers
            invariant
                layer <= self.config.n_layers,
                dims_fit(self.config),
                none == Seq::<DispatchStep>::empty(),
                dispatch::continues(
                    none,
                    chain@,
                    embed_plan(seq_len) + layers_plan(
                        self.config,
                        self.kv_cache.max_seq,
                        seq_len,
                        layer as nat,
                    ),
                ),
            decreases self.config.n_layers - layer,
        {
            let ghost before = chain@;
            self.build_layer_chain(&mut chain, seq_len);
            proof {
                dispatch::lemma_continues_joins(
                    none,
                    before,
                    chain@,
                    embed_plan(seq_len) + layers_plan(
                        self.config,
                        self.kv_cache.max_seq,
                        seq_len,
                        layer as nat,
                    ),
                    layer_plan(self.config, self.kv_cache.max_seq, seq_len),
                );
            }
            assert(embed_plan(seq_len) + layers_plan(
                self.config,
                self.kv_cache.max_seq,
                seq_len,
                layer as nat,
            ) + layer_plan(self.config, self.kv_cache.max_seq, seq_len) =~= embed_plan(seq_len)
                + layers_plan(
                self.config,
                self.kv_cache.max_seq,
                seq_len,
                (layer + 1) as nat,
            ));
            layer = layer + 1;
        }
        chain
    }

    /// A forward pass over `seq_len` tokens that ends in a sampled token.
    fn forward_chain(&self, seq_len: u32) -> (chain: DispatchChain)
        requires
            dims_fit(self.config),
        ensures
            dispatch::continues(
                Seq::empty(),
                chain@,
                forward_plan(self.config, self.kv_cache.max_seq, seq_len),
            ),
    {
        let mut chain: DispatchChain = self.embed_and_layers(seq_len);
        let vocab_size: u32 = self.config.vocab_size;
        let head: LinearPC = LinearPC {
            in_dim: self.config.hidden_dim,
            out_dim: vocab_size,
            pad: [0u32; 2],
        };
        add_step(&mut chain, "lm_head", &head, div_up(vocab_size, 256), 1, BarrierKind::ExecOnly);
        let sample: SamplePC = SamplePC {
            vocab_size,
            temperature_bits: ONE_BITS,
            top_p_bits: ONE_BITS,
            top_k: 0,
        };
        add_step(&mut chain, "sample", &sample, 1, 1, BarrierKind::HostRead);
        proof {
            let so_far = embed_plan(seq_len) + layers_plan(
                self.config,
                self.kv_cache.max_seq,
                seq_len,
                self.config.n_layers as nat,
            );
            assert(head.words() =~= head_plan(self.config, 1)[0].words);
            assert(so_far.push(head_plan(self.config, 1)[0]).push(sample_plan(self.config)[0])
                =~= forward_plan(self.config, self.kv_cache.max_seq, seq_len));
        }
        chain
    }

    /// Batch prompt processing: advances the cache by `tokens.len()` positions
    /// and returns the dispatches that embed the tokens, run every layer and
    /// sample the next token. When the cache fills up, what was advanced stays.
    pub fn prefill(&mut self, tokens: &[u32]) -> (r: Result<DispatchChain, Error>)
        requires
            dims_fit(old(self).config),
            tokens@.len() <= u32::MAX,
        ensures
            final(self).config == old(self).config,
            final(self).buffers == old(self).buffers,
            advanced(old(self).kv_cache, final(self).kv_cache, tokens@.len() as u32, r is Ok),
            match r {
                Ok(chain) => dispatch::continues(
                    Seq::empty(),
                    chain@,
                    forward_plan(
                        old(self).config,
                        old(self).kv_cache.max_seq,
                        tokens@.len() as u32,
                    ),
                ),
                Err(e) => is_full(e, final(self).kv_cache),
            },
    {
        let seq_len: u32 = tokens.len() as u32;
        let chain: DispatchChain = self.forward_chain(seq_len);
        match self.kv_cache.advance_by(seq_len) {
            Ok(_) => Ok(chain),
            Err(e) => Err(e),
        }
    }

    /// Single-token generation: advances the cache by one position and returns
    /// the dispatches that embed one token, run every layer and sample.
    pub fn decode(&mut self) -> (r: Result<DispatchChain, Error>)
        requires
            dims_fit(old(self).config),
        ensures
            final(self).config == old(self).config,
            final(self).buffers == old(self).buffers,
            advanced(old(self).kv_cache, final(self).kv_cache, 1, r is Ok),
            match r {
                Ok(chain) => dispatch::continues(
                    Seq::empty(),
                    chain@,
                    forward_plan(old(self).config, old(self).kv_cache.max_seq, 1),
                ),
                Err(e) => is_full(e, final(self).kv_cache),
            },
    {
        let chain: DispatchChain = self.forward_chain(1);
        match self.kv_cache.advance_by(1) {
            Ok(_) => Ok(chain),
            Err(e) => Err(e),
        }
    }

    /// The dispatches of a full forward pass over `drafts` as a batch; none
    /// when there are no drafts. The cache is not advanced: the caller advances
    /// it by the number of accepted tokens.
    pub fn verify_forward(&self, drafts: &[u32]) -> (r: Option<DispatchChain>)
        requires
            dims_fit(self.config),
            drafts@.len() <= u32::MAX,
        ensures
            match r {
                None => drafts@.len() == 0,
                Some(chain) => {
                    &&& drafts@.len() > 0
                    &&& dispatch::continues(
                        Seq::empty(),
                        chain@,
                        verify_plan(self.config, self.kv_cache.max_seq, drafts@.len() as u32),
                    )
                },
            },
    {
        if drafts.len() == 0 {
            return None;
        }
        let seq_len: u32 = drafts.len() as u32;
        let mut chain: DispatchChain = self.embed_and_layers(seq_len);
        let vocab_size: u32 = self.config.vocab_size;
        let head: LinearPC = LinearPC {
            in_dim: self.config.hidden_dim,
            out_dim: vocab_size,
            pad: [0u32; 2],
        };
        add_step(
            &mut chain,
            "lm_head",
            &head,
            div_up(vocab_size, 256),
            seq_len,
            BarrierKind::ExecOnly,
        );
        proof {
            let so_far = embed_plan(seq_len) + layers_plan(
                self.config,
                self.kv_cache.max_seq,
                seq_len,
                self.config.n_layers as nat,
            );
            assert(head.words() =~= head_plan(self.config, seq_len)[0].words);
            assert(so_far.push(head_plan(self.config, seq_len)[0]) =~= verify_plan(
                self.config,
                self.kv_cache.max_seq,
                seq_len,
            ));
        }
        Some(chain)
    }
}

/// `after` is `before` with `n` more positions taken if `ok`, and otherwise
/// with all positions taken that there were.
pub open spec fn advanced(before: KvCache, after: KvCache, n: u32, ok: bool) -> bool {
    &&& ok <==> n == 0 || before.seq_len + n <= before.max_seq
    &&& after == (KvCache { seq_len: after.seq_len, ..before })
    &&& after.seq_len == if ok {
        before.seq_len + n
    } else if before.seq_len <= before.max_seq {
        before.max_seq as int
    } else {
        before.seq_len as int
    }
}

/// `e` says that the cache is full.
pub open spec fn is_full(e: Error, cache: KvCache) -> bool {
    e == Error::KvCacheFull(cache.seq_len as usize, cache.max_seq as usize)
}

/// How many of the drafts are kept: the first, and those after it for as long as
/// the model predicts them. The prediction at `i` is for the draft at `i + 1`.
pub open spec fn accepted_count(drafts: Seq<u32>, predictions: Seq<u32>) -> nat
    decreases drafts.len(),
{
    if drafts.len() == 0 {
        0
    } else if drafts.len() == 1 || predictions.len() == 0 || predictions[0] != drafts[1] {
        1
    } else {
        1 + accepted_count(drafts.skip(1), predictions.skip(1))
    }
}

/// Number of drafts accepted in a row, given the model's prediction at each
/// position. The first draft is the main model's own token.
pub fn count_accepted(drafts: &[u32], predictions: &[u32]) -> (n: usize)
    ensures
        n == accepted_count(drafts@, predictions@),
        n <= drafts@.len(),
        drafts@.len() > 0 ==> n >= 1,
{
    if drafts.len() == 0 {
        return 0;
    }
    let mut n: usize = 1;
    assert(drafts@.skip(0) =~= drafts@);
    assert(predictions@.skip(0) =~= predictions@);
    while n < drafts.len() && n - 1 < predictions.len() && predictions[n - 1] == drafts[n]
        invariant
            1 <= n <= drafts@.len(),
            n - 1 <= predictions@.len(),
            accepted_count(drafts@, predictions@) == n - 1 + accepted_count(
                drafts@.skip(n - 1),
                predictions@.skip(n - 1),
            ),
        decreases drafts.len() - n,
    {
        assert(drafts@.skip(n - 1).skip(1) =~= drafts@.skip(n as int));
        assert(predictions@.skip(n - 1).skip(1) =~= predictions@.skip(n as int));
        n = n + 1;
    }
    n
}

/// Sizes of the buffers that the engine allocates, in order: hidden state (32
/// and 16 bits), queries, keys, values, attention output, gate logits, experts'
/// intermediate and output, logits, token, and the two halves of the cache.
pub open spec fn buffer_sizes(c: ModelConfig, max_context: u32) -> Seq<int> {
    seq![
        c.hidden_dim * 4,
        c.hidden_dim * 2,
        c.n_heads_q * c.head_dim * 2,
        c.n_heads_kv * c.head_dim * 2,
        c.n_heads_kv * c.head_dim * 2,
        c.hidden_dim * 2,
        c.n_experts * 2,
        c.n_active_experts * c.ffn_intermediate * 4,
        c.n_active_experts * c.hidden_dim * 2,
        c.vocab_size * 4,
        4,
        kv_cache::k_size(c, max_context),
        kv_cache::v_size(c, max_context),
    ]
}

/// The names of the buffers in the arena, in the same order.
pub open spec fn buffer_names() -> Seq<Seq<char>> {
    seq![
        "hidden_fp32"@,
        "hidden_state"@,
        "q"@,
        "k"@,
        "v"@,
        "attn_output"@,
        "gate_logits"@,
        "moe_intermediate"@,
        "moe_output"@,
        "logits"@,
        "token_out"@,
        "kv_cache_k"@,
        "kv_cache_v"@,
    ]
}

/// All buffer sizes are 64-bit numbers.
pub open spec fn buffers_fit(c: ModelConfig, max_context: u32) -> bool {
    &&& kv_cache::kv_sizes_fit(c, max_context)
    &&& forall|i: int|
        0 <= i < 13 ==> 0 <= #[trigger] buffer_sizes(c, max_context)[i] <= u64::MAX
}

/// The same sizes as machine numbers.
pub open spec fn size_list(c: ModelConfig, max_context: u32) -> Seq<u64> {
    Seq::new(13, |i: int| buffer_sizes(c, max_context)[i] as u64)
}

/// The buffer at `i` of the list, allocated when `used` bytes were in use.
pub open spec fn buffer_at(c: ModelConfig, max_context: u32, used: int, i: nat) -> Buffer {
    Buffer {
        offset: memory::start_at(memory::end_after(used, size_list(c, max_context), i)) as u64,
        size: size_list(c, max_context)[i as int],
    }
}

impl Engine {
    /// Every buffer is where the list puts it.
    pub open spec fn placed(&self, max_context: u32, used: int) -> bool {
        let c = self.config;
        let b = self.buffers;
        &&& b.hidden_fp32 == buffer_at(c, max_context, used, 0)
        &&& b.hidden_state == buffer_at(c, max_context, used, 1)
        &&& b.q == buffer_at(c, max_context, used, 2)
        &&& b.k == buffer_at(c, max_context, used, 3)
        &&& b.v == buffer_at(c, max_context, used, 4)
        &&& b.attn_output == buffer_at(c, max_context, used, 5)
        &&& b.gate_logits == buffer_at(c, max_context, used, 6)
        &&& b.moe_intermediate == buffer_at(c, max_context, used, 7)
        &&& b.moe_output == buffer_at(c, max_context, used, 8)
        &&& b.logits == buffer_at(c, max_context, used, 9)
        &&& b.token_out == buffer_at(c, max_context, used, 10)
        &&& self.kv_cache.is_empty_for(
            c,
            max_context,
            buffer_at(c, max_context, used, 11),
            buffer_at(c, max_context, used, 12),
        )
    }

    /// Allocate all compute buffers and the cache.
    pub fn new(config: ModelConfig, max_context: u32, arena: &mut Arena) -> (r: Result<
        Self,
        Error,
    >)
        requires
            old(arena).well_formed(),
            buffers_fit(config, max_context),
        ensures
            final(arena).well_formed(),
            final(arena).total() == old(arena).total(),
            match r {
                Ok(engine) => {
                    &&& engine.config == config
                    &&& engine.placed(max_context, old(arena).used())
                    &&& final(arena).used() == memory::end_after(
                        old(arena).used(),
                        size_list(config, max_context),
                        13,
                    )
                    &&& final(arena).used() <= final(arena).total()
                    &&& final(arena)@ == memory::regions_after(
                        old(arena)@,
                        old(arena).used(),
                        buffer_names(),
                        size_list(config, max_context),
                        13,
                    )
                },
                Err(e) => exists|k: int|
                    {
                        &&& #[trigger] memory::first_misfit(
                            old(arena).used(),
                            old(arena).total(),
                            size_list(config, max_context),
                            k,
                        )
                        &&& memory::is_out_of_memory(
                            e,
                            memory::end_after(
                                old(arena).used(),
                                size_list(config, max_context),
                                k as nat,
                            ),
                            old(arena).total(),
                            size_list(config, max_context)[k],
                        )
                        &&& final(arena).used() == memory::end_after(
                            old(arena).used(),
                            size_list(config, max_context),
                            k as nat,
                        )
                        &&& final(arena)@ == memory::regions_after(
                            old(arena)@,
                            old(arena).used(),
                            buffer_names(),
                            size_list(config, max_context),
                            k as nat,
                        )
                    },
            },
    {
        let dim: u64 = config.hidden_dim as u64;
        let head_dim: u64 = config.head_dim as u64;
        let n_heads: u64 = config.n_heads_q as u64;
        let n_kv: u64 = config.n_heads_kv as u64;
        let n_active: u64 = config.n_active_experts as u64;
        let ffn: u64 = config.ffn_intermediate as u64;
        proof {
            let all = buffer_sizes(config, max_context);
            assert(0 <= all[2] <= u64::MAX && 0 <= all[3] <= u64::MAX && 0 <= all[7] <= u64::MAX
                && 0 <= all[8] <= u64::MAX);
        }
        let (k_size, v_size) = kv_cache::kv_sizes(&config, max_context);
        let names: Vec<&'static str> = vec![
            "hidden_fp32",
            "hidden_state",
            "q",
            "k",
            "v",
            "attn_output",
            "gate_logits",
            "moe_intermediate",
            "moe_output",
            "logits",
            "token_out",
            "kv_cache_k",
            "kv_cache_v",
        ];
        let sizes: Vec<u64> = vec![
            dim * 4,
            dim * 2,
            n_heads * head_dim * 2,
            n_kv * head_dim * 2,
            n_kv * head_dim * 2,
            dim * 2,
            config.n_experts as u64 * 2,
            n_active * ffn * 4,
            n_active * dim * 2,
            config.vocab_size as u64 * 4,
            4,
            k_size,
            v_size,
        ];
        assert(sizes@ =~= size_list(config, max_context));
        assert(memory::texts(names@) =~= buffer_names());
        let ghost used = arena.used();
        let at: Vec<u64> = match arena.allocate_all(&names, &sizes) {
            Ok(at) => at,
            Err(e) => {
                return Err(e);
            },
        };
        let buffers: EngineBuffers = EngineBuffers {
            hidden_fp32: Buffer { offset: at[0], size: sizes[0] },
            hidden_state: Buffer { offset: at[1], size: sizes[1] },
            q: Buffer { offset: at[2], size: sizes[2] },
            k: Buffer { offset: at[3], size: sizes[3] },
            v: Buffer { offset: at[4], size: sizes[4] },
            attn_output: Buffer { offset: at[5], size: sizes[5] },
            gate_logits: Buffer { offset: at[6], size: sizes[6] },
            moe_intermediate: Buffer { offset: at[7], size: sizes[7] },
            moe_output: Buffer { offset: at[8], size: sizes[8] },
            logits: Buffer { offset: at[9], size: sizes[9] },
            token_out: Buffer { offset: at[10], size: sizes[10] },
        };
        let kv_cache: KvCache = KvCache::in_buffers(
            &config,
            max_context,
            Buffer { offset: at[11], size: sizes[11] },
            Buffer { offset: at[12], size: sizes[12] },
        );
        Ok(Engine { config, kv_cache, buffers })
    }
}

/// Every dispatch waits for the one before it, and memory is flushed only where
/// the keys and values are written and where the host reads the token.
pub open spec fn flushes_sparingly(plan: Seq<StepPlan>) -> bool {
    forall|i: int|
        0 <= i < plan.len() ==> {
            ||| (#[trigger] plan[i]).barrier == BarrierKind::ExecOnly
            ||| plan[i].barrier == BarrierKind::MemoryFlush && plan[i].pipeline == "kv_write"@
            ||| plan[i].barrier == BarrierKind::HostRead && plan[i].pipeline == "sample"@
        }
}

/// Every dispatch runs one of the shaders.
pub open spec fn runs_shaders(plan: Seq<StepPlan>) -> bool {
    forall|i: int|
        0 <= i < plan.len() ==> shaders::shader_list().contains((#[trigger] plan[i]).pipeline)
}

proof fn lemma_layer_is_sound(c: ModelConfig, max_seq: u32, seq_len: u32)
    ensures
        flushes_sparingly(layer_plan(c, max_seq, seq_len)),
        runs_shaders(layer_plan(c, max_seq, seq_len)),
{
    let all = shaders::shader_list();
    assert(all[0] == "rms_norm"@ && all[2] == "qkv"@ && all[3] == "rope"@ && all[4] == "attention"@
        && all[5] == "kv_write"@ && all[6] == "residual_add"@ && all[7] == "router_topk"@ && all[8]
        == "moe_gate_up"@ && all[9] == "silu_mult"@ && all[10] == "moe_down"@ && all[11]
        == "moe_combine"@ && all[18] == "ssm_norm"@ && all[19] == "ssm_conv"@ && all[20]
        == "ssm_scan"@ && all[21] == "ssm_proj"@ && all[22] == "ssm_out"@);
    assert(runs_shaders(ssm_plan(c)));
    assert(runs_shaders(attention_plan(c, max_seq, seq_len)));
    assert(runs_shaders(router_plan(c, seq_len)));
    assert(runs_shaders(silu_plan(c)));
    assert(runs_shaders(combine_plan(c, seq_len)));
}

proof fn lemma_layers_are_sound(c: ModelConfig, max_seq: u32, seq_len: u32, n: nat)
    ensures
        flushes_sparingly(layers_plan(c, max_seq, seq_len, n)),
        runs_shaders(layers_plan(c, max_seq, seq_len, n)),
    decreases n,
{
    if n > 0 {
        lemma_layers_are_sound(c, max_seq, seq_len, (n - 1) as nat);
        lemma_layer_is_sound(c, max_seq, seq_len);
    }
}

/// In a forward pass every dispatch is ordered after the one before it by an
/// execution barrier; memory is flushed only after the cache is written and
/// after the token is sampled.
pub proof fn law_flushes_sparingly(c: ModelConfig, max_seq: u32, seq_len: u32)
    ensures
        flushes_sparingly(forward_plan(c, max_seq, seq_len)),
        flushes_sparingly(verify_plan(c, max_seq, seq_len)),
{
    lemma_layers_are_sound(c, max_seq, seq_len, c.n_layers as nat);
}

/// Every layer writes the cache once, and flushes memory there and nowhere else.
pub proof fn law_layer_flushes_once(c: ModelConfig, max_seq: u32, seq_len: u32, i: int)
    requires
        0 <= i < layer_plan(c, max_seq, seq_len).len(),
    ensures
        layer_plan(c, max_seq, seq_len)[i].barrier == BarrierKind::MemoryFlush <==> i == 9,
        layer_plan(c, max_seq, seq_len)[9].pipeline == "kv_write"@,
{
}

/// Every dispatch of a forward pass runs a known shader, so that no step of it
/// can fail to be recorded once the shaders are loaded.
pub proof fn law_passes_run_shaders(c: ModelConfig, max_seq: u32, seq_len: u32)
    ensures
        runs_shaders(forward_plan(c, max_seq, seq_len)),
        runs_shaders(verify_plan(c, max_seq, seq_len)),
{
    lemma_layers_are_sound(c, max_seq, seq_len, c.n_layers as nat);
    let all = shaders::shader_list();
    assert(all[1] == "embed"@ && all[12] == "lm_head"@ && all[13] == "sample"@);
    assert(runs_shaders(embed_plan(seq_len)));
    assert(runs_shaders(head_plan(c, 1)));
    assert(runs_shaders(head_plan(c, seq_len)));
    assert(runs_shaders(sample_plan(c)));
}

/// A pass over one token dispatches as many steps as a pass over many.
pub proof fn law_pass_length(c: ModelConfig, max_seq: u32, seq_len: u32)
    ensures
        forward_plan(c, max_seq, seq_len).len() == 3 + c.n_layers * (16 + 2 * c.n_active_experts),
{
    lemma_layers_length(c, max_seq, seq_len, c.n_layers as nat);
}

proof fn lemma_layers_length(c: ModelConfig, max_seq: u32, seq_len: u32, n: nat)
    ensures
        layers_plan(c, max_seq, seq_len, n).len() == n * (16 + 2 * c.n_active_experts),
    decreases n,
{
    if n > 0 {
        lemma_layers_length(c, max_seq, seq_len, (n - 1) as nat);
        let w = 16 + 2 * c.n_active_experts;
        assert((n - 1) * w + w == n * w) by (nonlinear_arith);
        assert(layer_plan(c, max_seq, seq_len).len() == w);
    } else {
        assert(0 * (16 + 2 * c.n_active_experts) == 0) by (nonlinear_arith);
    }
}

/// A token is accepted only in an unbroken run from the first draft on: every
/// accepted draft after the first was predicted, and the first one that was not
/// accepted was not.
pub proof fn law_accepts_predicted_prefix(drafts: Seq<u32>, predictions: Seq<u32>)
    requires
        drafts.len() > 0,
    ensures
        ({
            let n = accepted_count(drafts, predictions) as int;
            &&& 1 <= n <= drafts.len()
            &&& n - 1 <= predictions.len()
            &&& forall|i: int| 1 <= i < n ==> predictions[i - 1] == #[trigger] drafts[i]
            &&& n < drafts.len() && n - 1 < predictions.len() ==> predictions[n - 1] != drafts[n]
        }),
    decreases drafts.len(),
{
    let n = accepted_count(drafts, predictions) as int;
    if drafts.len() > 1 && predictions.len() > 0 && predictions[0] == drafts[1] {
        let d = drafts.skip(1);
        let p = predictions.skip(1);
        law_accepts_predicted_prefix(d, p);
        assert forall|i: int| 1 <= i < n implies predictions[i - 1] == #[trigger] drafts[i] by {
            if i > 1 {
                assert(p[i - 2] == d[i - 1]);
            }
        }
        if n < drafts.len() && n - 1 < predictions.len() {
            assert(p[n - 2] == predictions[n - 1]);
            assert(d[n - 1] == drafts[n]);
        }
    }
}

} // verus!
