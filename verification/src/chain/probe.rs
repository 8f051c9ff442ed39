//! A trial run of one attention block on the device.

use vstd::prelude::*;

use crate::align;
use crate::chain::constants;
use crate::chain::constants::{AttentionPC, PushBlock, RMSNormPC};
use crate::chain::dispatch;
use crate::chain::dispatch::{
    BarrierKind, BufferBinding, DispatchChain, DispatchStep, StepPlan,
};
use crate::chain::engine;
use crate::chain::gguf;
use crate::chain::gguf::ModelConfig;
use crate::chain::shaders;

verus! {

/// Push constants of the projection in the trial: rows, columns, six unused
/// words, heads, key-value heads, head size, and the weights' format.
#[derive(Copy, Clone, Debug, Default)]
pub struct ProbeQkvPC {
    pub dim: u32,
    pub n_heads: u32,
    pub n_kv_heads: u32,
    pub head_dim: u32,
}

impl PushBlock for ProbeQkvPC {
    open spec fn words(&self) -> Seq<u32> {
        seq![
            0u32,
            self.dim,
            0,
            0,
            0,
            0,
            0,
            0,
            self.n_heads,
            self.n_kv_heads,
            self.head_dim,
            1,
        ]
    }

    fn to_words(&self) -> (r: Vec<u32>) {
        vec![
            0u32,
            self.dim,
            0,
            0,
            0,
            0,
            0,
            0,
            self.n_heads,
            self.n_kv_heads,
            self.head_dim,
            1,
        ]
    }
}

/// The sizes in bytes of the buffers of the trial: hidden state, queries, keys,
/// values and attention output, all in 32 bits.
pub open spec fn probe_sizes(c: ModelConfig) -> Seq<int> {
    seq![
        c.hidden_dim * 4,
        c.n_heads_q * c.head_dim * 4,
        c.n_heads_kv * c.head_dim * 4,
        c.n_heads_kv * c.head_dim * 4,
        c.hidden_dim * 4,
    ]
}

/// The sizes are 32-bit numbers.
pub open spec fn probe_fits(c: ModelConfig) -> bool {
    forall|i: int| 0 <= i < 5 ==> 0 <= #[trigger] probe_sizes(c)[i] <= u32::MAX
}

/// Where the buffer at `k` starts when each takes a multiple of 128 bytes.
pub open spec fn probe_start(c: ModelConfig, k: nat) -> int
    decreases k,
{
    if k == 0 {
        0
    } else {
        probe_start(c, (k - 1) as nat) + align::round_up(probe_sizes(c)[k - 1], 128)
    }
}

/// The buffers of the trial in one block of memory.
pub struct ProbeLayout {
    pub sizes: Vec<u64>,
    pub offsets: Vec<u64>,
    pub total: u64,
}

/// Places the buffers of the trial one after the other.
pub fn probe_layout(c: &ModelConfig) -> (r: ProbeLayout)
    requires
        probe_fits(*c),
    ensures
        r.sizes@.len() == 5,
        r.offsets@.len() == 5,
        forall|i: int| 0 <= i < 5 ==> #[trigger] r.sizes@[i] == probe_sizes(*c)[i],
        forall|i: int| 0 <= i < 5 ==> #[trigger] r.offsets@[i] == probe_start(*c, i as nat),
        r.total == probe_start(*c, 5),
{
    proof {
        let all = probe_sizes(*c);
        assert(0 <= all[0] <= u32::MAX && 0 <= all[1] <= u32::MAX && 0 <= all[2] <= u32::MAX);
        assert(align::is_power_of_two(128)) by {
            assert(128u64 & 127u64 == 0) by (bit_vector);
        }
    }
    let sizes: Vec<u64> = vec![
        c.hidden_dim as u64 * 4,
        c.n_heads_q as u64 * c.head_dim as u64 * 4,
        c.n_heads_kv as u64 * c.head_dim as u64 * 4,
        c.n_heads_kv as u64 * c.head_dim as u64 * 4,
        c.hidden_dim as u64 * 4,
    ];
    let mut offsets: Vec<u64> = Vec::new();
    let mut at: u64 = 0;
    let mut i: usize = 0;
    while i < 5
        invariant
            i <= 5,
            probe_fits(*c),
            align::is_power_of_two(128),
            sizes@.len() == 5,
            forall|j: int| 0 <= j < 5 ==> #[trigger] sizes@[j] == probe_sizes(*c)[j],
            offsets@.len() == i,
            forall|j: int| 0 <= j < i ==> #[trigger] offsets@[j] == probe_start(*c, j as nat),
            at == probe_start(*c, i as nat),
            at <= i * 0x1_0000_0080,
        decreases 5 - i,
    {
        assert(0 <= probe_sizes(*c)[i as int] <= u32::MAX);
        proof {
            align::lemma_round_up(probe_sizes(*c)[i as int], 128);
        }
        offsets.push(at);
        at = at + align::align_up(sizes[i], 128);
        i = i + 1;
    }
    ProbeLayout { sizes, offsets, total: at }
}

/// The bindings that the trial uses: five buffers and three weights.
pub struct ProbeBindings {
    pub hidden: BufferBinding,
    pub q: BufferBinding,
    pub k: BufferBinding,
    pub v: BufferBinding,
    pub attn: BufferBinding,
    pub pre_norm: BufferBinding,
    pub qkv: BufferBinding,
    pub post_norm: BufferBinding,
}

pub open spec fn bound_step(
    pipeline: Seq<char>,
    words: Seq<u32>,
    x: int,
    y: int,
    buffers: Seq<BufferBinding>,
    barrier: BarrierKind,
) -> StepPlan {
    StepPlan { pipeline, words, x: x as u32, y: y as u32, z: 1, buffers, barrier }
}

/// Norm, projection, rotation, attention, cache write, residual and norm over
/// one token.
pub open spec fn probe_plan(c: ModelConfig, b: ProbeBindings) -> Seq<StepPlan> {
    let dim = c.hidden_dim;
    let heads = c.n_heads_q as int;
    let tiles = engine::div_ceil(dim as int, 256);
    let attn = seq![1u32, c.n_heads_q, c.n_heads_kv, c.head_dim, dim];
    let norm = seq![1u32, dim, gguf::DEFAULT_EPS_BITS];
    seq![
        bound_step(
            "rms_norm"@,
            norm,
            tiles,
            1,
            seq![b.hidden, b.pre_norm, b.pre_norm, b.hidden, b.pre_norm],
            BarrierKind::ExecOnly,
        ),
        bound_step(
            "qkv"@,
            seq![
                0u32,
                dim,
                0,
                0,
                0,
                0,
                0,
                0,
                c.n_heads_q,
                c.n_heads_kv,
                c.head_dim,
                1,
            ],
            engine::div_ceil(dim as int, 64),
            heads,
            seq![b.hidden, b.qkv, b.qkv, b.q, b.k, b.v],
            BarrierKind::ExecOnly,
        ),
        bound_step("rope"@, attn, heads, 1, seq![b.q, b.k], BarrierKind::ExecOnly),
        bound_step(
            "attention"@,
            attn,
            heads,
            1,
            seq![b.q, b.k, b.v, b.k, b.v, b.attn],
            BarrierKind::MemoryFlush,
        ),
        bound_step(
            "kv_write"@,
            attn,
            c.n_heads_kv as int,
            1,
            seq![b.k, b.v, b.k, b.v],
            BarrierKind::MemoryFlush,
        ),
        bound_step(
            "residual_add"@,
            seq![0u32, dim, 0],
            tiles,
            1,
            seq![b.hidden, b.attn, b.attn, b.attn],
            BarrierKind::ExecOnly,
        ),
        bound_step(
            "rms_norm"@,
            norm,
            tiles,
            1,
            seq![b.hidden, b.post_norm, b.post_norm, b.hidden, b.post_norm],
            BarrierKind::MemoryFlush,
        ),
    ]
}

fn add_bound<T: PushBlock>(
    chain: &mut DispatchChain,
    pipeline_name: &'static str,
    pc: &T,
    x: u32,
    y: u32,
    buffers: Vec<BufferBinding>,
    barrier: BarrierKind,
)
    ensures
        forall|start: Seq<DispatchStep>, plan: Seq<StepPlan>| #[trigger]
            dispatch::continues(start, old(chain)@, plan) ==> dispatch::continues(
                start,
                final(chain)@,
                plan.push(
                    bound_step(
                        pipeline_name@,
                        pc.words(),
                        x as int,
                        y as int,
                        buffers@,
                        barrier,
                    ),
                ),
            ),
{
    chain.add(
        DispatchStep {
            pipeline_name,
            push_data: constants::pc_bytes(pc),
            workgroup_x: x,
            workgroup_y: y,
            workgroup_z: 1,
            buffers,
            barrier,
        },
    );
}

/// The dispatches of the trial.
pub fn probe_chain(c: &ModelConfig, b: &ProbeBindings) -> (chain: DispatchChain)
    requires
        engine::dims_fit(*c),
    ensures
        dispatch::continues(Seq::empty(), chain@, probe_plan(*c, *b)),
{
    let dim: u32 = c.hidden_dim;
    let tiles: u32 = engine::div_up(dim, 256);
    let norm: RMSNormPC = RMSNormPC { rows: 1, dim, eps_bits: gguf::DEFAULT_EPS_BITS };
    let qkv: ProbeQkvPC = ProbeQkvPC {
        dim,
        n_heads: c.n_heads_q,
        n_kv_heads: c.n_heads_kv,
        head_dim: c.head_dim,
    };
    let attn: AttentionPC = AttentionPC {
        seq_len: 1,
        n_heads: c.n_heads_q,
        n_kv_heads: c.n_heads_kv,
        head_dim: c.head_dim,
        max_seq_len: dim,
    };
    let residual: RMSNormPC = RMSNormPC { rows: 0, dim, eps_bits: 0 };
    let mut chain: DispatchChain = DispatchChain::new();
    assert(dispatch::continues(Seq::<DispatchStep>::empty(), chain@, Seq::empty()));
    add_bound(
        &mut chain,
        "rms_norm",
        &norm,
        tiles,
        1,
        vec![b.hidden, b.pre_norm, b.pre_norm, b.hidden, b.pre_norm],
        BarrierKind::ExecOnly,
    );
    add_bound(
        &mut chain,
        "qkv",
        &qkv,
        engine::div_up(dim, 64),
        c.n_heads_q,
        vec![b.hidden, b.qkv, b.qkv, b.q, b.k, b.v],
        BarrierKind::ExecOnly,
    );
    add_bound(
        &mut chain,
        "rope",
        &attn,
        c.n_heads_q,
        1,
        vec![b.q, b.k],
        BarrierKind::ExecOnly,
    );
    // The keys and values of the one token stand for the cache.
    add_bound(
        &mut chain,
        "attention",
        &attn,
        c.n_heads_q,
        1,
        vec![b.q, b.k, b.v, b.k, b.v, b.attn],
        BarrierKind::MemoryFlush,
    );
    add_bound(
        &mut chain,
        "kv_write",
        &attn,
        c.n_heads_kv,
        1,
        vec![b.k, b.v, b.k, b.v],
        BarrierKind::MemoryFlush,
    );
    add_bound(
        &mut chain,
        "residual_add",
        &residual,
        tiles,
        1,
        vec![b.hidden, b.attn, b.attn, b.attn],
        BarrierKind::ExecOnly,
    );
    add_bound(
        &mut chain,
        "rms_norm",
        &norm,
        tiles,
        1,
        vec![b.hidden, b.post_norm, b.post_norm, b.hidden, b.post_norm],
        BarrierKind::MemoryFlush,
    );
    proof {
        let all = probe_plan(*c, *b);
        assert(Seq::<StepPlan>::empty().push(all[0]).push(all[1]).push(all[2]).push(all[3]).push(
            all[4],
        ).push(all[5]).push(all[6]) =~= all);
    }
    chain
}

/// Every dispatch of the trial runs a known shader.
pub proof fn law_probe_runs_shaders(c: ModelConfig, b: ProbeBindings)
    ensures
        engine::runs_shaders(probe_plan(c, b)),
{
    let all = shaders::shader_list();
    assert(all[0] == "rms_norm"@ && all[2] == "qkv"@ && all[3] == "rope"@ && all[4] == "attention"@
        && all[5] == "kv_write"@ && all[6] == "residual_add"@);
}

} // verus!
