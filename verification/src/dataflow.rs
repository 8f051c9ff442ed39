//! What the kernels of a layer read and write: each reads what an earlier one
//! wrote, and every matrix is read by the kernel it is for.

use crate::inference;
use crate::inference::{Command, InferenceState, PushConstants, Scale};
use crate::memory::{ArenaLayout, LayerWeights};
use crate::pipeline::{FusedPaths, PipelineType};
use crate::router;
use crate::router::RoutingOutput;
use vstd::prelude::*;

verus! {

/// A kernel that is started: its pipeline, its constants and its groups.
pub struct Launch {
    pub pipeline: PipelineType,
    pub pc: PushConstants,
    pub x: u32,
    pub y: u32,
}

/// The kernels that commands start, in order: for each dispatch the pipeline and
/// the constants that were set right before it.
pub open spec fn launches(cmds: Seq<Command>) -> Seq<Launch>
    decreases cmds.len(),
{
    if cmds.len() == 0 {
        Seq::empty()
    } else {
        let before = launches(cmds.drop_last());
        let n = cmds.len() as int;
        match cmds.last() {
            Command::Dispatch(x, y, z) => if n >= 3 {
                match (cmds[n - 3], cmds[n - 2]) {
                    (Command::Bind(pipeline), Command::Push(pc)) => before.push(
                        Launch { pipeline, pc, x, y },
                    ),
                    _ => before,
                }
            } else {
                before
            },
            _ => before,
        }
    }
}

/// So many groups of this size hold all `n` items, and no group is empty.
pub open spec fn covers(groups: u32, size: int, n: int) -> bool {
    size * groups - size < n <= size * groups
}

/// The buffer that a layer reads: the first one when `ping` holds.
pub open spec fn source(l: ArenaLayout, ping: bool) -> u64 {
    if ping {
        l.hidden_ping
    } else {
        l.hidden_pong
    }
}

/// The buffer that a layer writes: the other one.
pub open spec fn target(l: ArenaLayout, ping: bool) -> u64 {
    if ping {
        l.hidden_pong
    } else {
        l.hidden_ping
    }
}

proof fn lemma_launch_run(a: Seq<Command>, pt: PipelineType, pc: PushConstants, x: int, y: int)
    ensures
        launches(a + inference::run(pt, pc, x, y)) == launches(a).push(
            Launch { pipeline: pt, pc, x: x as u32, y: y as u32 },
        ),
{
    let s = a + inference::run(pt, pc, x, y);
    let c2 = s.drop_last();
    let c1 = c2.drop_last();
    assert(c1.drop_last() =~= a);
    assert(c1.last() == Command::Bind(pt));
    assert(c2.last() == Command::Push(pc));
    assert(launches(c1) == launches(a));
    assert(launches(c2) == launches(a));
    let n = s.len() as int;
    assert(s[n - 3] == Command::Bind(pt) && s[n - 2] == Command::Push(pc));
}

proof fn lemma_launch_barrier(a: Seq<Command>)
    ensures
        launches(a + seq![Command::Barrier]) == launches(a),
{
    let s = a + seq![Command::Barrier];
    assert(s.drop_last() =~= a);
    assert(s.last() == Command::Barrier);
}

proof fn lemma_launch_step(a: Seq<Command>, pt: PipelineType, pc: PushConstants, x: int, y: int)
    ensures
        launches(a + inference::step(pt, pc, x, y)) == launches(a).push(
            Launch { pipeline: pt, pc, x: x as u32, y: y as u32 },
        ),
{
    let r = inference::run(pt, pc, x, y);
    assert(a + inference::step(pt, pc, x, y) =~= (a + r) + seq![Command::Barrier]);
    lemma_launch_run(a, pt, pc, x, y);
    lemma_launch_barrier(a + r);
}

proof fn lemma_launch_first(pt: PipelineType, pc: PushConstants, x: int, y: int)
    ensures
        launches(inference::step(pt, pc, x, y)) == seq![
            Launch { pipeline: pt, pc, x: x as u32, y: y as u32 },
        ],
{
    let none = Seq::<Command>::empty();
    assert(none + inference::step(pt, pc, x, y) =~= inference::step(pt, pc, x, y));
    lemma_launch_step(none, pt, pc, x, y);
    assert(launches(none) =~= Seq::<Launch>::empty());
    assert(launches(none).push(Launch { pipeline: pt, pc, x: x as u32, y: y as u32 }) =~= seq![
        Launch { pipeline: pt, pc, x: x as u32, y: y as u32 },
    ]);
}

/// Makes the three lemmas known for all commands.
proof fn lemma_launch_all()
    ensures
        forall|a: Seq<Command>, pt: PipelineType, pc: PushConstants, x: int, y: int|
            launches(#[trigger] (a + inference::step(pt, pc, x, y))) == launches(a).push(
                Launch { pipeline: pt, pc, x: x as u32, y: y as u32 },
            ),
        forall|a: Seq<Command>, pt: PipelineType, pc: PushConstants, x: int, y: int|
            launches(#[trigger] (a + inference::run(pt, pc, x, y))) == launches(a).push(
                Launch { pipeline: pt, pc, x: x as u32, y: y as u32 },
            ),
        forall|pt: PipelineType, pc: PushConstants, x: int, y: int|
            launches(#[trigger] inference::step(pt, pc, x, y)) == seq![
                Launch { pipeline: pt, pc, x: x as u32, y: y as u32 },
            ],
        forall|a: Seq<Command>|
            launches(#[trigger] (a + seq![Command::Barrier])) == launches(a),
{
    assert forall|a: Seq<Command>, pt: PipelineType, pc: PushConstants, x: int, y: int|
        launches(#[trigger] (a + inference::step(pt, pc, x, y))) == launches(a).push(
            Launch { pipeline: pt, pc, x: x as u32, y: y as u32 },
        ) by {
        lemma_launch_step(a, pt, pc, x, y);
    }
    assert forall|a: Seq<Command>, pt: PipelineType, pc: PushConstants, x: int, y: int|
        launches(#[trigger] (a + inference::run(pt, pc, x, y))) == launches(a).push(
            Launch { pipeline: pt, pc, x: x as u32, y: y as u32 },
        ) by {
        lemma_launch_run(a, pt, pc, x, y);
    }
    assert forall|pt: PipelineType, pc: PushConstants, x: int, y: int|
        launches(#[trigger] inference::step(pt, pc, x, y)) == seq![
            Launch { pipeline: pt, pc, x: x as u32, y: y as u32 },
        ] by {
        lemma_launch_first(pt, pc, x, y);
    }
    assert forall|a: Seq<Command>| launches(#[trigger] (a + seq![Command::Barrier])) == launches(
        a,
    ) by {
        lemma_launch_barrier(a);
    }
}

/// The last two kernels of a layer, from the one at `i` on: the router reads the
/// hidden state that the layer wrote and the layer's own gate, and the choice of
/// experts reads what the router wrote, with a group for each token.
pub open spec fn routes(
    k: Seq<Launch>,
    i: int,
    l: ArenaLayout,
    w: LayerWeights,
    layer: u32,
    m: u32,
    ping: bool,
) -> bool {
    &&& k[i].pipeline == PipelineType::Router
    &&& k[i].pc.input_offset == target(l, ping)
    &&& k[i].pc.weights_offset == w.ffn_gate@[layer as int]
    &&& k[i].pc.output_offset == l.routing_logits_base
    &&& k[i].pc.M == m && k[i].pc.N == w.num_experts && k[i].pc.K == w.hidden_size
    &&& covers(k[i].x, 64, m as int) && covers(k[i].y, 8, w.num_experts as int)
    &&& k[i + 1].pipeline == PipelineType::RouterTopk
    &&& k[i + 1].pc.input_offset == k[i].pc.output_offset
    &&& k[i + 1].pc.output_offset == l.routing_topk_base
    &&& k[i + 1].pc.M == m && k[i + 1].pc.N == w.num_experts
    &&& m > 0 ==> k[i + 1].x == m
    &&& k[i + 1].y == 1
}

/// Attention over `m` tokens, kernel by kernel. The hidden state is normed; the
/// layer's query, key and value matrices are each read by one projection, whose
/// results stand one behind the other; they are rotated, written to the layer's
/// cache at the first free position, and read back from there over all positions
/// up to the last; the layer's output matrix, the residual, the router and the
/// choice of experts follow, each on what the kernel before it wrote.
pub proof fn law_attention_dataflow(
    l: ArenaLayout,
    w: LayerWeights,
    f: FusedPaths,
    layer: u32,
    m: u32,
    s: InferenceState,
)
    requires
        inference::layer_fits(l, w, layer, true, m, s),
        !(m == 1 && f.gqa),
    ensures
        ({
            let k = launches(inference::layer_commands(l, w, f, layer, true, m, s));
            let q = l.temp_base + 2 * m * w.hidden_size;
            let cache = l.kv_cache_base + l.kv_cache_layer_stride * (layer / 4);
            &&& k.len() == 11
            &&& k[0].pipeline == PipelineType::RmsNorm && k[0].x == m && k[0].y == 1
            &&& k[0].pc.input_offset == source(l, s.hidden_ping)
            &&& k[0].pc.output_offset == l.temp_base
            &&& k[0].pc.M == m && k[0].pc.K == w.hidden_size
            &&& k[1].pc.weights_offset == w.attn_q@[layer as int]
            &&& k[2].pc.weights_offset == w.attn_k@[layer as int]
            &&& k[3].pc.weights_offset == w.attn_v@[layer as int]
            &&& k[1].pc.output_offset == q
            &&& k[2].pc.output_offset == q + 2 * 4096
            &&& k[3].pc.output_offset == q + 2 * 4096 + 2 * 512
            &&& k[1].pc.N == 4096 && k[2].pc.N == 512 && k[3].pc.N == 512
            &&& forall|i: int|
                1 <= i <= 3 ==> (#[trigger] k[i]).pipeline == PipelineType::GqaQkv
                    && k[i].pc.input_offset == k[0].pc.output_offset && k[i].pc.M == m
                    && k[i].pc.K == w.hidden_size && covers(k[i].x, 64, m as int) && covers(
                    k[i].y,
                    8,
                    k[i].pc.N as int,
                )
            &&& k[4].pipeline == PipelineType::Rope && k[4].x == m && k[4].y == 16 + 2
            &&& k[4].pc.input_offset == q && k[4].pc.M == m
            &&& k[4].pc.K == s.seq_len + m - 1
            &&& k[4].pc.num_qk_heads == 16 && k[4].pc.num_v_heads == 2
            &&& k[5].pipeline == PipelineType::KvWrite && covers(k[5].x, 64, m as int)
            &&& k[5].y == 32
            &&& k[5].pc.input_offset == q && k[5].pc.weights_offset == cache
            &&& k[5].pc.M == m && k[5].pc.K == s.seq_len && k[5].pc.N == w.max_seq_len
            &&& k[6].pipeline == PipelineType::GqaAttention && k[6].x == m && k[6].y == 16
            &&& k[6].pc.input_offset == q
            &&& k[6].pc.weights_offset == k[5].pc.weights_offset
            &&& k[6].pc.output_offset == l.temp_base
            &&& k[6].pc.M == m && k[6].pc.K == k[5].pc.K + m && k[6].pc.N == w.max_seq_len
            &&& k[5].pc.num_qk_heads == 16 && k[5].pc.num_v_heads == 2
            &&& k[6].pc.num_qk_heads == 16 && k[6].pc.num_v_heads == 2
            &&& k[7].pipeline == PipelineType::AttnOutput
            &&& k[7].pc.input_offset == k[6].pc.output_offset
            &&& k[7].pc.weights_offset == w.attn_output@[layer as int]
            &&& k[7].pc.output_offset == q
            &&& k[7].pc.M == m && k[7].pc.N == w.hidden_size && k[7].pc.K == w.hidden_size
            &&& covers(k[7].x, 64, m as int) && covers(k[7].y, 8, w.hidden_size as int)
            &&& k[8].pipeline == PipelineType::ResidualAdd && k[8].x == m
            &&& k[8].pc.input_offset == source(l, s.hidden_ping)
            &&& k[8].pc.weights_offset == k[7].pc.output_offset
            &&& k[8].pc.output_offset == target(l, s.hidden_ping)
            &&& k[8].pc.M == m && k[8].pc.N == w.hidden_size
            &&& routes(k, 9, l, w, layer, m, s.hidden_ping)
        }),
{
    lemma_launch_all();
    assert(2 * m * w.hidden_size == m * w.hidden_size * 2) by (nonlinear_arith);
    assert(l.kv_cache_layer_stride * (layer / 4) == (layer / 4) * l.kv_cache_layer_stride)
        by (nonlinear_arith);
    let pc = inference::mixer_pc(l, w, f, layer, true, m, s);
    let rp = inference::residual_pc(l, w, m, s, pc);
    let head = inference::mixer(l, w, f, layer, true, m, s) + seq![Command::Barrier];
    let r = head + inference::step(PipelineType::ResidualAdd, rp, m as int, 1);
    lemma_routing(r, l, w, layer, m, s, rp);
}

/// The kernels of the router stand behind those before it.
proof fn lemma_routing(
    a: Seq<Command>,
    l: ArenaLayout,
    w: LayerWeights,
    layer: u32,
    m: u32,
    s: InferenceState,
    pc: PushConstants,
)
    requires
        m + 63 <= u32::MAX,
        w.num_experts + 7 <= u32::MAX,
    ensures
        ({
            let k = launches(a + inference::routing(l, w, layer, m, s, pc));
            let n = launches(a).len() as int;
            &&& k.len() == n + 2
            &&& forall|i: int| 0 <= i < n ==> #[trigger] k[i] == launches(a)[i]
            &&& routes(k, n, l, w, layer, m, s.hidden_ping)
        }),
{
    lemma_launch_all();
    let rp = inference::router_pc(l, w, layer, m, s, pc);
    let first = inference::step(
        PipelineType::Router,
        rp,
        inference::rows(m as int),
        inference::cols(w.num_experts as int),
    );
    let tp = PushConstants {
        input_offset: l.routing_logits_base,
        output_offset: l.routing_topk_base,
        ..rp
    };
    let second = inference::run(
        PipelineType::RouterTopk,
        tp,
        if m == 0 {
            1
        } else {
            m as int
        },
        1,
    );
    assert(a + inference::routing(l, w, layer, m, s, pc) =~= (a + first) + second);
}

/// Attention for one token with fused kernels: the first reads the hidden state
/// and all three matrices of the layer, the cache is written at the first free
/// position and read over one position more, and the last adds the residual.
pub proof fn law_fused_attention_dataflow(
    l: ArenaLayout,
    w: LayerWeights,
    f: FusedPaths,
    layer: u32,
    s: InferenceState,
)
    requires
        inference::layer_fits(l, w, layer, true, 1, s),
        f.gqa,
    ensures
        ({
            let k = launches(inference::layer_commands(l, w, f, layer, true, 1, s));
            let q = l.temp_base + 2 * w.hidden_size;
            let cache = l.kv_cache_base + l.kv_cache_layer_stride * (layer / 4);
            &&& k.len() == 6
            &&& k[0].pipeline == PipelineType::FusedRmsNormQkvRope && k[0].x == 1
            &&& k[0].pc.input_offset == source(l, s.hidden_ping)
            &&& k[0].pc.weights_offset == w.attn_q@[layer as int]
            &&& k[0].pc.routing_weights_off == w.attn_k@[layer as int]
            &&& k[0].pc.token_ids_off == w.attn_v@[layer as int]
            &&& k[0].pc.output_offset == q
            &&& k[0].pc.M == 1 && k[0].pc.N == 4096 + 512 + 512 && k[0].pc.K == w.hidden_size
            &&& covers(k[0].y, 8, k[0].pc.N as int)
            &&& k[0].pc.num_experts == s.seq_len
            &&& k[0].pc.num_qk_heads == 16 && k[0].pc.num_v_heads == 2
            &&& k[1].pipeline == PipelineType::KvWrite && k[1].x == 1 && k[1].y == 32
            &&& k[1].pc.input_offset == k[0].pc.output_offset
            &&& k[1].pc.weights_offset == cache
            &&& k[1].pc.M == 1 && k[1].pc.K == s.seq_len && k[1].pc.N == w.max_seq_len
            &&& k[2].pipeline == PipelineType::GqaAttention && k[2].x == 1 && k[2].y == 16
            &&& k[2].pc.input_offset == k[0].pc.output_offset
            &&& k[2].pc.weights_offset == k[1].pc.weights_offset
            &&& k[2].pc.output_offset == l.temp_base
            &&& k[2].pc.M == 1 && k[2].pc.K == k[1].pc.K + 1
            &&& k[3].pipeline == PipelineType::AttnResidual && k[3].x == 1
            &&& k[3].pc.input_offset == k[2].pc.output_offset
            &&& k[3].pc.weights_offset == w.attn_output@[layer as int]
            &&& k[3].pc.routing_weights_off == source(l, s.hidden_ping)
            &&& k[3].pc.output_offset == target(l, s.hidden_ping)
            &&& k[3].pc.M == 1 && k[3].pc.N == w.hidden_size && k[3].pc.K == w.hidden_size
            &&& covers(k[3].y, 8, w.hidden_size as int)
            &&& routes(k, 4, l, w, layer, 1, s.hidden_ping)
        }),
{
    lemma_launch_all();
    assert(l.kv_cache_layer_stride * (layer / 4) == (layer / 4) * l.kv_cache_layer_stride)
        by (nonlinear_arith);
    let pc = inference::mixer_pc(l, w, f, layer, true, 1, s);
    let head = inference::mixer(l, w, f, layer, true, 1, s) + seq![Command::Barrier];
    lemma_routing(head, l, w, layer, 1, s, pc);
}

/// Linear attention over `m` tokens, kernel by kernel: the normed hidden state is
/// projected by the layer's matrix, the layer's state is stepped, the projections
/// go through the layer's output matrix, and residual and router follow.
pub proof fn law_linear_dataflow(
    l: ArenaLayout,
    w: LayerWeights,
    f: FusedPaths,
    layer: u32,
    m: u32,
    s: InferenceState,
)
    requires
        inference::layer_fits(l, w, layer, false, m, s),
        !(m == 1 && f.deltanet),
    ensures
        ({
            let k = launches(inference::layer_commands(l, w, f, layer, false, m, s));
            let q = l.temp_base + 2 * m * w.hidden_size;
            &&& k.len() == 7
            &&& k[0].pipeline == PipelineType::RmsNorm && k[0].x == m && k[0].y == 1
            &&& k[0].pc.input_offset == source(l, s.hidden_ping)
            &&& k[0].pc.output_offset == l.temp_base
            &&& k[0].pc.M == m && k[0].pc.K == w.hidden_size
            &&& k[1].pipeline == PipelineType::DeltaNetQkv
            &&& k[1].pc.input_offset == k[0].pc.output_offset
            &&& k[1].pc.weights_offset == w.attn_q@[layer as int]
            &&& k[1].pc.output_offset == q
            &&& k[1].pc.M == m && k[1].pc.N == 4128 && k[1].pc.K == w.hidden_size
            &&& covers(k[1].x, 64, m as int) && covers(k[1].y, 8, 4128)
            &&& k[2].pipeline == PipelineType::DeltaNetStep && k[2].x == 16 && k[2].y == 32
            &&& k[2].pc.input_offset == k[1].pc.output_offset
            &&& k[2].pc.weights_offset == l.deltanet_state_base
            &&& k[2].pc.output_offset == l.deltanet_state_base
            &&& k[2].pc.num_qk_heads == 16 && k[2].pc.num_v_heads == 32
            &&& k[2].pc.layer_idx == layer && k[2].pc.M == m
            &&& k[3].pipeline == PipelineType::DeltaNetOutput
            &&& k[3].pc.input_offset == k[1].pc.output_offset
            &&& k[3].pc.weights_offset == w.attn_output@[layer as int]
            &&& k[3].pc.output_offset == q
            &&& k[3].pc.M == m && k[3].pc.N == w.hidden_size && k[3].pc.K == 4096
            &&& covers(k[3].x, 64, m as int) && covers(k[3].y, 8, w.hidden_size as int)
            &&& k[4].pipeline == PipelineType::ResidualAdd && k[4].x == m
            &&& k[4].pc.input_offset == source(l, s.hidden_ping)
            &&& k[4].pc.weights_offset == k[3].pc.output_offset
            &&& k[4].pc.output_offset == target(l, s.hidden_ping)
            &&& k[4].pc.M == m && k[4].pc.N == w.hidden_size
            &&& routes(k, 5, l, w, layer, m, s.hidden_ping)
        }),
{
    lemma_launch_all();
    assert(2 * m * w.hidden_size == m * w.hidden_size * 2) by (nonlinear_arith);
    let pc = inference::mixer_pc(l, w, f, layer, false, m, s);
    let rp = inference::residual_pc(l, w, m, s, pc);
    let head = inference::mixer(l, w, f, layer, false, m, s) + seq![Command::Barrier];
    let r = head + inference::step(PipelineType::ResidualAdd, rp, m as int, 1);
    lemma_routing(r, l, w, layer, m, s, rp);
}

/// Linear attention for one token with fused kernels: the first norms and
/// projects the hidden state, the layer's state is stepped, and the last adds
/// the residual.
pub proof fn law_fused_linear_dataflow(
    l: ArenaLayout,
    w: LayerWeights,
    f: FusedPaths,
    layer: u32,
    s: InferenceState,
)
    requires
        inference::layer_fits(l, w, layer, false, 1, s),
        f.deltanet,
    ensures
        ({
            let k = launches(inference::layer_commands(l, w, f, layer, false, 1, s));
            let q = l.temp_base + 2 * w.hidden_size;
            &&& k.len() == 5
            &&& k[0].pipeline == PipelineType::FusedRmsNormDnQkv && k[0].x == 1
            &&& k[0].pc.input_offset == source(l, s.hidden_ping)
            &&& k[0].pc.weights_offset == w.attn_q@[layer as int]
            &&& k[0].pc.output_offset == q
            &&& k[0].pc.M == 1 && k[0].pc.N == 4128 && k[0].pc.K == w.hidden_size
            &&& covers(k[0].y, 8, 4128)
            &&& k[1].pipeline == PipelineType::DeltaNetStep && k[1].x == 16 && k[1].y == 32
            &&& k[1].pc.input_offset == k[0].pc.output_offset
            &&& k[1].pc.weights_offset == l.deltanet_state_base
            &&& k[1].pc.output_offset == l.deltanet_state_base
            &&& k[1].pc.num_qk_heads == 16 && k[1].pc.num_v_heads == 32
            &&& k[1].pc.layer_idx == layer && k[1].pc.M == 1
            &&& k[2].pipeline == PipelineType::DnOutputResidual && k[2].x == 1
            &&& k[2].pc.input_offset == k[0].pc.output_offset
            &&& k[2].pc.weights_offset == w.attn_output@[layer as int]
            &&& k[2].pc.routing_weights_off == source(l, s.hidden_ping)
            &&& k[2].pc.output_offset == target(l, s.hidden_ping)
            &&& k[2].pc.M == 1 && k[2].pc.N == w.hidden_size && k[2].pc.K == 4096
            &&& covers(k[2].y, 8, w.hidden_size as int)
            &&& routes(k, 3, l, w, layer, 1, s.hidden_ping)
        }),
{
    lemma_launch_all();
    let pc = inference::mixer_pc(l, w, f, layer, false, 1, s);
    let head = inference::mixer(l, w, f, layer, false, 1, s) + seq![Command::Barrier];
    lemma_routing(head, l, w, layer, 1, s, pc);
}

/// The two kernels of an expert with these matrices over `m` tokens: gate and up
/// read the hidden state behind the residual, and down reads what they wrote and
/// adds to that hidden state.
pub open spec fn is_expert(
    gate: Launch,
    down: Launch,
    l: ArenaLayout,
    w: LayerWeights,
    gate_at: u64,
    up_at: u64,
    down_at: u64,
    m: int,
    ping: bool,
) -> bool {
    &&& gate.pipeline == PipelineType::W1W3Fused
    &&& gate.pc.input_offset == target(l, ping)
    &&& gate.pc.weights_offset == gate_at
    &&& gate.pc.routing_weights_off == up_at
    &&& gate.pc.output_offset == l.scratch_base + 2 * m * w.intermediate_size
    &&& gate.pc.M == m && gate.pc.N == 2 * w.intermediate_size && gate.pc.K == w.hidden_size
    &&& covers(gate.x, 64, m) && covers(gate.y, 8, 2 * w.intermediate_size)
    &&& down.pipeline == PipelineType::W2Scatter
    &&& down.pc.input_offset == gate.pc.output_offset
    &&& down.pc.weights_offset == down_at
    &&& down.pc.output_offset == target(l, ping)
    &&& down.pc.M == m && down.pc.N == w.hidden_size && down.pc.K == w.intermediate_size
    &&& covers(down.x, 64, m) && covers(down.y, 8, w.hidden_size as int)
    &&& down.pc.token_ids_off == gate.pc.token_ids_off
}

/// The kernels of an expert stand behind those before it.
proof fn lemma_expert_steps(
    a: Seq<Command>,
    l: ArenaLayout,
    w: LayerWeights,
    x: inference::ExpertWeights,
    m: int,
    ping: bool,
    gate: PushConstants,
    down: PushConstants,
    tokens: u64,
    scale: Scale,
    pc: PushConstants,
)
    requires
        0 <= m,
        m + 63 <= u32::MAX,
        w.hidden_size + 7 <= u32::MAX,
        w.intermediate_size * 2 + 7 <= u32::MAX,
        inference::moe_scratch(l, w, m) <= u64::MAX,
        gate == inference::gate_pc(l, w, x, m, ping, tokens, pc),
        down == (PushConstants {
            routing_weights_off: down.routing_weights_off,
            ..inference::down_pc(l, w, x, m, ping, scale, gate)
        }),
    ensures
        ({
            let k = launches(a + inference::expert_steps(w, m, gate, down));
            let n = launches(a).len() as int;
            &&& k.len() == n + 2
            &&& forall|i: int| 0 <= i < n ==> #[trigger] k[i] == launches(a)[i]
            &&& is_expert(k[n], k[n + 1], l, w, x.w1, x.w3, x.w2, m, ping)
            &&& k[n].pc == gate
            &&& k[n + 1].pc == down
        }),
{
    lemma_launch_all();
    let first = inference::step(
        PipelineType::W1W3Fused,
        gate,
        inference::rows(m),
        inference::cols(w.intermediate_size * 2),
    );
    let second = inference::step(
        PipelineType::W2Scatter,
        down,
        inference::rows(m),
        inference::cols(w.hidden_size as int),
    );
    assert(a + inference::expert_steps(w, m, gate, down) =~= (a + first) + second);
    assert(2 * m * w.intermediate_size == m * w.intermediate_size * 2) by (nonlinear_arith);
    assert(0 <= m * w.intermediate_size * 2) by (nonlinear_arith)
        requires
            m >= 0,
            w.intermediate_size >= 0,
    ;
}

/// The expert at place `i` of a token's eight runs right behind those before it,
/// with its matrices in that layer, scaled by its weight.
pub open spec fn runs_routed(
    k: Seq<Launch>,
    l: ArenaLayout,
    w: LayerWeights,
    layer: u32,
    r: RoutingOutput,
    m: u32,
    ping: bool,
    i: int,
) -> bool {
    let at = layer * w.num_experts + r.routed[i];
    &&& is_expert(
        k[2 + 2 * i],
        k[3 + 2 * i],
        l,
        w,
        w.expert_w1@[at],
        w.expert_w3@[at],
        w.expert_w2@[at],
        m as int,
        ping,
    )
    &&& k[3 + 2 * i].pc.scale == Scale::NinthOf(r.weights[i])
}

/// The shared expert and the first `n` routed experts of a token on its own.
pub open spec fn runs_token(
    k: Seq<Launch>,
    l: ArenaLayout,
    w: LayerWeights,
    layer: u32,
    routing: Seq<RoutingOutput>,
    m: u32,
    ping: bool,
    n: int,
) -> bool {
    &&& k.len() == 2 + 2 * n
    &&& is_expert(
        k[0],
        k[1],
        l,
        w,
        w.shared_w1@[layer as int],
        w.shared_w3@[layer as int],
        w.shared_w2@[layer as int],
        m as int,
        ping,
    )
    &&& k[1].pc.scale == Scale::Ninth
    &&& forall|i: int|
        0 <= i < n ==> #[trigger] runs_routed(k, l, w, layer, routing[0], m, ping, i)
}

proof fn lemma_token_experts(
    l: ArenaLayout,
    w: LayerWeights,
    layer: u32,
    routing: Seq<RoutingOutput>,
    m: u32,
    ping: bool,
    n: nat,
)
    requires
        m + 63 <= u32::MAX,
        w.hidden_size + 7 <= u32::MAX,
        w.intermediate_size * 2 + 7 <= u32::MAX,
        inference::moe_scratch(l, w, m as int) <= u64::MAX,
        n <= 8,
    ensures
        runs_token(
            launches(inference::single_experts(l, w, layer, routing, m, ping, n).commands),
            l,
            w,
            layer,
            routing,
            m,
            ping,
            n as int,
        ),
    decreases n,
{
    let none = Seq::<Command>::empty();
    assert(launches(none) =~= Seq::<Launch>::empty());
    if n == 0 {
        let x = inference::shared_weights(w, layer);
        let pc = PushConstants::initial();
        let gate = inference::gate_pc(l, w, x, m as int, ping, 0, pc);
        let down = inference::down_pc(l, w, x, m as int, ping, Scale::Ninth, gate);
        lemma_expert_steps(none, l, w, x, m as int, ping, gate, down, 0, Scale::Ninth, pc);
        let k = launches(
            inference::single_experts(l, w, layer, routing, m, ping, 0).commands,
        );
        assert(k == launches(none + inference::expert_steps(w, m as int, gate, down)));
        assert(k.len() == 2);
        assert(k[1].pc == down);
        assert(is_expert(k[0], k[1], l, w, x.w1, x.w3, x.w2, m as int, ping));
    } else {
        lemma_token_experts(l, w, layer, routing, m, ping, (n - 1) as nat);
        let r = inference::single_experts(l, w, layer, routing, m, ping, (n - 1) as nat);
        let x = inference::expert_weights(w, layer, routing[0].routed[n - 1] as int);
        let scale = Scale::NinthOf(routing[0].weights[n - 1]);
        let gate = inference::gate_pc(l, w, x, m as int, ping, 0, r.pc);
        let down = inference::down_pc(l, w, x, m as int, ping, scale, gate);
        lemma_expert_steps(r.commands, l, w, x, m as int, ping, gate, down, 0, scale, r.pc);
        let before = launches(r.commands);
        let k = launches(
            inference::single_experts(l, w, layer, routing, m, ping, n).commands,
        );
        assert(k[0] == before[0] && k[1] == before[1]);
        assert forall|i: int| 0 <= i < n implies #[trigger] runs_routed(
            k,
            l,
            w,
            layer,
            routing[0],
            m,
            ping,
            i,
        ) by {
            let last = before.len() as int;
            assert(last == 2 * n);
            if i < n - 1 {
                assert(runs_routed(before, l, w, layer, routing[0], m, ping, i));
                assert(k[2 + 2 * i] == before[2 + 2 * i]);
                assert(k[3 + 2 * i] == before[3 + 2 * i]);
            } else {
                assert(2 + 2 * i == last && 3 + 2 * i == last + 1);
                assert(is_expert(k[last], k[last + 1], l, w, x.w1, x.w3, x.w2, m as int, ping));
                assert(k[last + 1].pc == down);
            }
        }
    }
}

/// A token on its own, where its experts are not fused: the shared matrices of
/// the layer are read first, and then, for each expert that the token is routed
/// to, the gating, up and down matrices of that expert in that layer, which stand
/// in the tables at the layer's number times the number of experts, plus the
/// expert. Each expert is scaled by its own weight.
pub proof fn law_token_reads_its_experts(
    l: ArenaLayout,
    w: LayerWeights,
    f: FusedPaths,
    layer: u32,
    routing: Seq<RoutingOutput>,
    m: u32,
    ping: bool,
    plan: inference::MoePlan,
)
    requires
        inference::moe_fits(l, w, layer, routing, m),
        inference::runs_experts(l, w, f, layer, routing, m, ping, plan),
        routing.len() <= 1,
        !(m == 1 && f.moe),
    ensures
        plan.writes@.len() == 0,
        runs_token(
            launches(plan.commands@),
            l,
            w,
            layer,
            routing,
            m,
            ping,
            8 * routing.len() as int,
        ),
{
    lemma_token_experts(l, w, layer, routing, m, ping, (8 * routing.len()) as nat);
}

/// The three offsets of each of the first `n` experts of a token, the shared one
/// first.
proof fn lemma_fused_offsets(
    w: LayerWeights,
    layer: u32,
    routing: Seq<RoutingOutput>,
    n: nat,
    i: int,
)
    requires
        0 <= i <= n <= 8,
    ensures
        ({
            let v = inference::moe_fused_offsets(w, layer, routing, n);
            &&& v.len() == 3 + 3 * n
            &&& i == 0 ==> v[0] == w.shared_w1@[layer as int] && v[1] == w.shared_w3@[layer as int]
                && v[2] == w.shared_w2@[layer as int]
            &&& i > 0 ==> {
                let at = layer * w.num_experts + routing[0].routed[i - 1];
                &&& v[3 * i] == w.expert_w1@[at]
                &&& v[3 * i + 1] == w.expert_w3@[at]
                &&& v[3 * i + 2] == w.expert_w2@[at]
            }
        }),
    decreases n,
{
    if n > 0 {
        lemma_fused_offsets(w, layer, routing, (n - 1) as nat, if i < n {
            i
        } else {
            0
        });
    }
}

/// A token on its own, where its experts are fused: one kernel reads a list of
/// weights, one for the shared expert and then those of the routed ones, and a
/// list of the gating, up and down matrices of the same experts in that layer.
pub proof fn law_fused_experts_are_listed(
    l: ArenaLayout,
    w: LayerWeights,
    f: FusedPaths,
    layer: u32,
    routing: Seq<RoutingOutput>,
    ping: bool,
    plan: inference::MoePlan,
    i: int,
)
    requires
        inference::moe_fits(l, w, layer, routing, 1),
        inference::runs_experts(l, w, f, layer, routing, 1, ping, plan),
        routing.len() == 1,
        f.moe,
        0 <= i < 8,
    ensures
        ({
            let k = launches(plan.commands@);
            let at = layer * w.num_experts + routing[0].routed[i];
            &&& plan.writes@[0] matches inference::ArenaWrite::Weights { offset, bits }
                && plan.writes@[1] matches inference::ArenaWrite::Offsets { offset: list, values }
                && {
                &&& bits@.len() == 9 && values@.len() == 27
                &&& bits@[0] == 0x3f80_0000 && bits@[1 + i] == routing[0].weights[i]
                &&& values@[0] == w.shared_w1@[layer as int]
                &&& values@[1] == w.shared_w3@[layer as int]
                &&& values@[2] == w.shared_w2@[layer as int]
                &&& values@[3 + 3 * i] == w.expert_w1@[at]
                &&& values@[4 + 3 * i] == w.expert_w3@[at]
                &&& values@[5 + 3 * i] == w.expert_w2@[at]
                &&& list == offset + 4 * bits@.len()
                &&& k.len() == 1
                &&& k[0].pipeline == PipelineType::MoeFused
                &&& k[0].pc.routing_weights_off == list
                &&& k[0].pc.token_ids_off == offset
                &&& k[0].pc.input_offset == source(l, ping)
                &&& k[0].pc.output_offset == target(l, ping)
                &&& k[0].pc.M == 1 && k[0].pc.N == w.hidden_size && k[0].pc.K == w.hidden_size
                &&& k[0].pc.num_experts == w.intermediate_size
            }
        }),
{
    lemma_fused_offsets(w, layer, routing, 8, 0);
    lemma_fused_offsets(w, layer, routing, 8, i + 1);
    let none = Seq::<Command>::empty();
    let r = inference::run(
        PipelineType::MoeFused,
        inference::moe_fused_pc(l, w, ping),
        1,
        1032,
    );
    assert(none + r =~= r);
    assert(launches(none) =~= Seq::<Launch>::empty());
    lemma_launch_run(none, PipelineType::MoeFused, inference::moe_fused_pc(l, w, ping), 1, 1032);
}

/// A token on its own that is routed nowhere, where its experts are fused: the
/// lists hold the shared expert alone, which counts fully, and stand where they
/// stand otherwise.
pub proof fn law_fused_shared_expert_is_listed(
    l: ArenaLayout,
    w: LayerWeights,
    f: FusedPaths,
    layer: u32,
    ping: bool,
    plan: inference::MoePlan,
)
    requires
        inference::moe_fits(l, w, layer, Seq::empty(), 1),
        inference::runs_experts(l, w, f, layer, Seq::empty(), 1, ping, plan),
        f.moe,
    ensures
        ({
            let k = launches(plan.commands@);
            &&& plan.writes@.len() == 2
            &&& plan.writes@[0] matches inference::ArenaWrite::Weights { offset, bits }
                && plan.writes@[1] matches inference::ArenaWrite::Offsets { offset: list, values }
                && {
                &&& bits@.len() == 1 && values@.len() == 3
                &&& bits@[0] == 0x3f80_0000
                &&& values@[0] == w.shared_w1@[layer as int]
                &&& values@[1] == w.shared_w3@[layer as int]
                &&& values@[2] == w.shared_w2@[layer as int]
                &&& list == offset + 36
                &&& k.len() == 1
                &&& k[0].pipeline == PipelineType::MoeFused
                &&& k[0].pc.routing_weights_off == list
                &&& k[0].pc.token_ids_off == offset
                &&& k[0].pc.input_offset == source(l, ping)
                &&& k[0].pc.output_offset == target(l, ping)
            }
        }),
{
    lemma_fused_offsets(w, layer, Seq::empty(), 0, 0);
    let none = Seq::<Command>::empty();
    let r = inference::run(
        PipelineType::MoeFused,
        inference::moe_fused_pc(l, w, ping),
        1,
        1032,
    );
    assert(none + r =~= r);
    assert(launches(none) =~= Seq::<Launch>::empty());
    lemma_launch_run(none, PipelineType::MoeFused, inference::moe_fused_pc(l, w, ping), 1, 1032);
}

/// How many experts before `e` a token is routed to.
pub open spec fn busy_before(routing: Seq<RoutingOutput>, e: nat) -> nat
    decreases e,
{
    if e == 0 {
        0
    } else {
        busy_before(routing, (e - 1) as nat) + if router::tokens_to(
            routing,
            routing.len(),
            e - 1,
        ) > 0 {
            1nat
        } else {
            0
        }
    }
}

/// Expert `e` runs behind the shared expert and the busy ones before it, with its
/// matrices in that layer, over as many tokens as are routed to it.
pub open spec fn runs_batched(
    k: Seq<Launch>,
    l: ArenaLayout,
    w: LayerWeights,
    layer: u32,
    routing: Seq<RoutingOutput>,
    ping: bool,
    e: int,
) -> bool {
    let i = 2 + 2 * busy_before(routing, e as nat) as int;
    let at = layer * w.num_experts + e;
    let first = router::below(
        router::shared_apart(routing, w.num_experts),
        router::slot_count(routing) as nat,
        e as nat,
    );
    &&& i + 1 < k.len()
    &&& is_expert(
        k[i],
        k[i + 1],
        l,
        w,
        w.expert_w1@[at],
        w.expert_w3@[at],
        w.expert_w2@[at],
        router::tokens_to(routing, routing.len(), e) as int,
        ping,
    )
    &&& k[i + 1].pc.scale == Scale::Ninth
    &&& k[i].pc.token_ids_off == l.routing_token_base + 2 * first
    &&& k[i + 1].pc.routing_weights_off == l.routing_weight_base + 4 * first
}

/// The shared expert runs first, over all tokens.
pub open spec fn runs_shared(
    k: Seq<Launch>,
    l: ArenaLayout,
    w: LayerWeights,
    layer: u32,
    routing: Seq<RoutingOutput>,
    ping: bool,
) -> bool {
    let first = router::below(
        router::shared_apart(routing, w.num_experts),
        router::slot_count(routing) as nat,
        w.num_experts as nat,
    );
    &&& k.len() >= 2
    &&& is_expert(
        k[0],
        k[1],
        l,
        w,
        w.shared_w1@[layer as int],
        w.shared_w3@[layer as int],
        w.shared_w2@[layer as int],
        routing.len() as int,
        ping,
    )
    &&& k[1].pc.scale == Scale::Ninth
    &&& k[0].pc.token_ids_off == l.routing_token_base + 2 * first
    &&& k[1].pc.routing_weights_off == l.routing_weight_base + 4 * first
}

/// One expert of a batch adds its two kernels, or none.
proof fn lemma_batch_expert(
    l: ArenaLayout,
    w: LayerWeights,
    x: inference::ExpertWeights,
    apart: Seq<RoutingOutput>,
    e: nat,
    ping: bool,
    r: inference::Recording,
)
    requires
        w.hidden_size + 7 <= u32::MAX,
        w.intermediate_size * 2 + 7 <= u32::MAX,
        ({
            let all = router::slot_count(apart) as nat;
            let n = router::count(apart, all, e as int);
            &&& n + 63 <= u32::MAX
            &&& inference::moe_scratch(l, w, n as int) <= u64::MAX
            &&& l.routing_token_base + 2 * router::below(apart, all, e) <= u64::MAX
            &&& l.routing_weight_base + 4 * router::below(apart, all, e) <= u64::MAX
        }),
    ensures
        ({
            let all = router::slot_count(apart) as nat;
            let n = router::count(apart, all, e as int) as int;
            let first = router::below(apart, all, e);
            let before = launches(r.commands);
            let i = before.len() as int;
            let k = launches(inference::batch_expert(l, w, x, apart, e, ping, r).commands);
            &&& n == 0 ==> k == before
            &&& n > 0 ==> {
                &&& k.len() == i + 2
                &&& forall|j: int| 0 <= j < i ==> #[trigger] k[j] == before[j]
                &&& is_expert(k[i], k[i + 1], l, w, x.w1, x.w3, x.w2, n, ping)
                &&& k[i + 1].pc.scale == Scale::Ninth
                &&& k[i].pc.token_ids_off == l.routing_token_base + 2 * first
                &&& k[i + 1].pc.routing_weights_off == l.routing_weight_base + 4 * first
            }
        }),
{
    let all = router::slot_count(apart) as nat;
    let n = router::count(apart, all, e as int) as int;
    let first = router::below(apart, all, e) as int;
    if n > 0 {
        let tokens = (l.routing_token_base + first * 2) as u64;
        let weights = (l.routing_weight_base + first * 4) as u64;
        let gate = inference::gate_pc(l, w, x, n, ping, tokens, r.pc);
        let down = PushConstants {
            routing_weights_off: weights,
            ..inference::down_pc(l, w, x, n, ping, Scale::Ninth, gate)
        };
        lemma_expert_steps(
            r.commands,
            l,
            w,
            x,
            n,
            ping,
            gate,
            down,
            tokens,
            Scale::Ninth,
            r.pc,
        );
    }
}

proof fn lemma_batch_experts(
    l: ArenaLayout,
    w: LayerWeights,
    layer: u32,
    routing: Seq<RoutingOutput>,
    m: u32,
    ping: bool,
    n: nat,
)
    requires
        routing.len() > 1,
        inference::moe_fits(l, w, layer, routing, m),
        forall|t: int| 0 <= t < routing.len() ==> router::routed_differ(#[trigger] routing[t]),
        n <= w.num_experts,
    ensures
        ({
            let k = launches(
                inference::batch_experts(l, w, layer, routing, ping, n).commands,
            );
            &&& k.len() == 2 + 2 * busy_before(routing, n)
            &&& runs_shared(k, l, w, layer, routing, ping)
            &&& forall|e: int|
                0 <= e < n && router::tokens_to(routing, routing.len(), e) > 0
                    ==> #[trigger] runs_batched(k, l, w, layer, routing, ping, e)
        }),
    decreases n,
{
    let all = router::slot_count(routing) as nat;
    let apart = router::shared_apart(routing, w.num_experts);
    let none = Seq::<Command>::empty();
    assert(launches(none) =~= Seq::<Launch>::empty());
    router::lemma_apart_exist(routing, w.num_experts);
    assert(router::routed_exist(routing[0], w.num_experts));
    assert(routing[0].routed[0] < w.num_experts);
    let x: int = if n == 0 {
        w.num_experts as int
    } else {
        n - 1
    };
    assert(router::count(apart, all, x) + 63 <= u32::MAX);
    router::lemma_range_below_total(apart, (w.num_experts + 1) as u32, x as nat);
    router::lemma_apart_counts(routing, w.num_experts, routing.len(), if n == 0 {
        0
    } else {
        n - 1
    });
    if n == 0 {
        let start = inference::Recording { commands: none, pc: PushConstants::initial() };
        lemma_batch_expert(
            l,
            w,
            inference::shared_weights(w, layer),
            apart,
            w.num_experts as nat,
            ping,
            start,
        );
    } else {
        lemma_batch_experts(l, w, layer, routing, m, ping, (n - 1) as nat);
        let r = inference::batch_experts(l, w, layer, routing, ping, (n - 1) as nat);
        lemma_batch_expert(
            l,
            w,
            inference::expert_weights(w, layer, n - 1),
            apart,
            (n - 1) as nat,
            ping,
            r,
        );
        let before = launches(r.commands);
        let k = launches(inference::batch_experts(l, w, layer, routing, ping, n).commands);
        assert(k[0] == before[0] && k[1] == before[1]);
        assert(runs_shared(before, l, w, layer, routing, ping));
        assert forall|e: int|
            0 <= e < n && router::tokens_to(routing, routing.len(), e) > 0 implies
            #[trigger] runs_batched(k, l, w, layer, routing, ping, e) by {
            if e < n - 1 {
                assert(runs_batched(before, l, w, layer, routing, ping, e));
                let i = 2 + 2 * busy_before(routing, e as nat) as int;
                assert(k[i] == before[i] && k[i + 1] == before[i + 1]);
            } else {
                assert(before.len() == 2 + 2 * busy_before(routing, e as nat));
            }
        }
    }
}

/// Many tokens: the shared matrices of the layer run over all of them, and each
/// expert that a token is routed to runs once, over just those tokens, with its
/// gate, up and down matrices in that layer, which stand in the tables at the
/// layer's number times the number of experts, plus the expert.
pub proof fn law_batch_reads_its_experts(
    l: ArenaLayout,
    w: LayerWeights,
    f: FusedPaths,
    layer: u32,
    routing: Seq<RoutingOutput>,
    m: u32,
    ping: bool,
    plan: inference::MoePlan,
    e: int,
)
    requires
        routing.len() > 1,
        inference::moe_fits(l, w, layer, routing, m),
        inference::runs_experts(l, w, f, layer, routing, m, ping, plan),
        forall|t: int| 0 <= t < routing.len() ==> router::routed_differ(#[trigger] routing[t]),
        0 <= e < w.num_experts,
    ensures
        ({
            let k = launches(plan.commands@);
            &&& k.len() == 2 + 2 * busy_before(routing, w.num_experts as nat)
            &&& runs_shared(k, l, w, layer, routing, ping)
            &&& router::tokens_to(routing, routing.len(), e) > 0 ==> runs_batched(
                k,
                l,
                w,
                layer,
                routing,
                ping,
                e,
            )
        }),
{
    lemma_batch_experts(l, w, layer, routing, m, ping, w.num_experts as nat);
}

/// Many tokens: the entries that an expert's kernels read in the lists that were
/// written are the tokens routed to it, each with its weight for that expert;
/// those of the shared expert are all tokens in order, with weight one.
pub proof fn law_batch_lists_are_read(
    l: ArenaLayout,
    w: LayerWeights,
    f: FusedPaths,
    layer: u32,
    routing: Seq<RoutingOutput>,
    m: u32,
    ping: bool,
    plan: inference::MoePlan,
    e: int,
    j: int,
)
    requires
        1 < routing.len() <= 0x1_0000,
        inference::moe_fits(l, w, layer, routing, m),
        inference::runs_experts(l, w, f, layer, routing, m, ping, plan),
        forall|t: int| 0 <= t < routing.len() ==> router::routed_differ(#[trigger] routing[t]),
        0 <= e < w.num_experts,
        0 <= j < router::tokens_to(routing, routing.len(), e),
    ensures
        ({
            let k = launches(plan.commands@);
            let i = 2 + 2 * busy_before(routing, e as nat) as int;
            &&& plan.writes@[0] matches inference::ArenaWrite::Tokens { offset, ids }
                && plan.writes@[1] matches inference::ArenaWrite::Weights { offset: list, bits }
                && exists|first: int|
                {
                    &&& #[trigger] ids@[first + j] < routing.len()
                    &&& k[i].pc.token_ids_off == offset + 2 * first
                    &&& k[i + 1].pc.routing_weights_off == list + 4 * first
                    &&& router::is_routed(
                        routing,
                        ids@[first + j] as int,
                        e,
                        bits@[first + j],
                    )
                    &&& j > 0 ==> ids@[first + j - 1] < ids@[first + j]
                }
        }),
{
    let all = router::slot_count(routing) as nat;
    let apart = router::shared_apart(routing, w.num_experts);
    law_batch_reads_its_experts(l, w, f, layer, routing, m, ping, plan, e);
    router::lemma_apart_counts(routing, w.num_experts, routing.len(), e);
    let ids = plan.writes@[0]->ids@;
    let bits = plan.writes@[1]->bits@;
    router::law_batches_list_tokens(routing, w.num_experts, ids, bits, e, j);
    let first = router::below(apart, all, e as nat) as int;
    assert(ids[first + j] < routing.len());
}

/// Where the logits of head `i` for further tokens stand: behind room for 128
/// hidden states, one list of 248320 half-precision numbers for each head.
pub open spec fn drafts_at(l: ArenaLayout, w: LayerWeights, i: int) -> int {
    l.scratch_base + 256 * w.hidden_size + i * 496640
}

/// The heads, kernel by kernel. The embedding turns the hidden state into the
/// logits of the next token. Each further head reads the same hidden state and
/// its own first matrix, is activated in place, and reads its own second matrix
/// into a list of logits of its own.
pub proof fn law_heads_dataflow(l: ArenaLayout, w: LayerWeights, ping: bool, n: nat, i: int)
    requires
        inference::heads_fit(l, w),
        n <= w.num_mtp_heads,
        0 <= i < n,
    ensures
        ({
            let k = launches(inference::head_recording(l, w, ping, n).commands);
            let j = 1 + 3 * i;
            &&& k.len() == 1 + 3 * n
            &&& k[0].pipeline == PipelineType::AttnOutput
            &&& k[0].pc.input_offset == source(l, ping)
            &&& k[0].pc.weights_offset == w.embedding
            &&& k[0].pc.output_offset == l.scratch_base
            &&& k[0].pc.M == 1 && k[0].pc.N == 248320 && k[0].pc.K == w.hidden_size
            &&& k[0].x == 1 && covers(k[0].y, 8, 248320)
            &&& k[j].pipeline == PipelineType::AttnOutput
            &&& k[j].pc.input_offset == source(l, ping)
            &&& k[j].pc.weights_offset == w.mtp_w1@[i]
            &&& k[j].pc.output_offset == l.scratch_base + 128 * w.hidden_size
            &&& k[j].pc.M == 1 && k[j].pc.N == w.hidden_size && k[j].pc.K == w.hidden_size
            &&& k[j].x == 1 && covers(k[j].y, 8, w.hidden_size as int)
            &&& k[j + 1].pipeline == PipelineType::SiluMult
            &&& k[j + 1].pc.input_offset == k[j].pc.output_offset
            &&& k[j + 1].pc.output_offset == k[j].pc.output_offset
            &&& k[j + 1].pc.M == 1 && k[j + 1].pc.N == w.hidden_size
            &&& k[j + 1].x == 1 && covers(k[j + 1].y, 256, w.hidden_size as int)
            &&& k[j + 2].pipeline == PipelineType::AttnOutput
            &&& k[j + 2].pc.input_offset == k[j + 1].pc.output_offset
            &&& k[j + 2].pc.weights_offset == w.mtp_w2@[i]
            &&& k[j + 2].pc.output_offset == drafts_at(l, w, i)
            &&& k[j + 2].pc.M == 1 && k[j + 2].pc.N == 248320
            &&& k[j + 2].pc.K == w.hidden_size
            &&& k[j + 2].x == 1 && covers(k[j + 2].y, 8, 248320)
        }),
    decreases n,
{
    law_next_token_head(l, w, ping, n);
    let m = (n - 1) as nat;
    let before = inference::head_recording(l, w, ping, m);
    law_next_token_head(l, w, ping, m);
    lemma_head_last(l, w, ping, n - 1, before);
    assert(i * 496640 <= w.num_mtp_heads * 496640);
    if i < m {
        law_heads_dataflow(l, w, ping, m, i);
    }
}

/// The first kernel of the heads reads the hidden state and the embedding, and
/// writes the logits of the next token; three kernels follow for each further one.
pub proof fn law_next_token_head(l: ArenaLayout, w: LayerWeights, ping: bool, n: nat)
    ensures
        ({
            let r = inference::head_recording(l, w, ping, n);
            let k = launches(r.commands);
            &&& k.len() == 1 + 3 * n
            &&& k[0].pipeline == PipelineType::AttnOutput
            &&& k[0].pc.input_offset == source(l, ping)
            &&& k[0].pc.weights_offset == w.embedding
            &&& k[0].pc.output_offset == l.scratch_base
            &&& k[0].pc.M == 1 && k[0].pc.N == 248320 && k[0].pc.K == w.hidden_size
            &&& k[0].x == 1 && k[0].y == 31040
            &&& r.pc.M == 1 && r.pc.K == w.hidden_size
        }),
    decreases n,
{
    if n == 0 {
        let pc = inference::head_pc(l, w, ping);
        lemma_launch_first(PipelineType::AttnOutput, pc, 1, inference::cols(248320));
    } else {
        let before = inference::head_recording(l, w, ping, (n - 1) as nat);
        law_next_token_head(l, w, ping, (n - 1) as nat);
        lemma_head_last(l, w, ping, n - 1, before);
    }
}

proof fn lemma_head_last(
    l: ArenaLayout,
    w: LayerWeights,
    ping: bool,
    i: int,
    r: inference::Recording,
)
    ensures
        ({
            let z = inference::mtp_scratch(l, w) as u64;
            let h = w.hidden_size as int;
            let up = PushConstants {
                input_offset: source(l, ping),
                weights_offset: w.mtp_w1@[i],
                output_offset: z,
                N: w.hidden_size,
                K: w.hidden_size,
                ..r.pc
            };
            let act = PushConstants { input_offset: z, ..up };
            let out = PushConstants {
                weights_offset: w.mtp_w2@[i],
                output_offset: inference::draft_logits(l, w, i) as u64,
                N: 248320,
                ..act
            };
            &&& inference::mtp_head(l, w, ping, i, r).pc == out
            &&& launches(inference::mtp_head(l, w, ping, i, r).commands) == launches(r.commands).push(
                Launch {
                    pipeline: PipelineType::AttnOutput,
                    pc: up,
                    x: 1,
                    y: inference::cols(h) as u32,
                },
            ).push(
                Launch {
                    pipeline: PipelineType::SiluMult,
                    pc: act,
                    x: 1,
                    y: inference::wide(h) as u32,
                },
            ).push(Launch { pipeline: PipelineType::AttnOutput, pc: out, x: 1, y: 31040 })
        }),
{
    lemma_launch_all();
}

/// The 128 bytes that a kernel is given, taken apart: each 64-bit number stands
/// in two words, the low one first, and each other number in a word of its own.
/// The words behind the scale are zero.
pub proof fn law_words_hold_the_constants(pc: PushConstants, scale_bits: u32)
    ensures
        ({
            let v = pc.words(scale_bits);
            let wide = |i: int| v[i] + 0x1_0000_0000 * v[i + 1];
            &&& v.len() == 32
            &&& wide(0) == pc.input_offset
            &&& wide(2) == pc.weights_offset
            &&& wide(4) == pc.output_offset
            &&& v[6] == pc.M && v[7] == pc.N && v[8] == pc.K
            &&& v[9] == pc.num_experts
            &&& wide(10) == pc.routing_weights_off
            &&& v[12] == pc.num_qk_heads
            &&& v[13] == pc.num_v_heads
            &&& v[14] == pc.layer_idx
            &&& v[15] == 0
            &&& wide(16) == pc.token_ids_off
            &&& v[18] == scale_bits
            &&& forall|i: int| 18 < i < 32 ==> #[trigger] v[i] == 0
        }),
{
    assert forall|x: u64|
        inference::low_word(x) + 0x1_0000_0000 * #[trigger] inference::high_word(x) == x by {
        assert(x as int / 0x1_0000_0000 <= u32::MAX);
    }
}

/// The routing of a token is read from its nine entries: the first is passed
/// over, and of the others each gives an expert in its low sixteen bits and a
/// weight in its high half.
pub proof fn law_entries_give_the_routing(entries: Seq<u64>, t: int, r: RoutingOutput, i: int)
    requires
        inference::unpacked(entries, t, r),
        0 <= i < 8,
    ensures
        ({
            let e = entries[9 * t + 1 + i];
            &&& r.routed[i] == e % 0x1_0000
            &&& r.weights[i] == e / 0x1_0000_0000
            &&& r.shared_id == 0
        }),
{
    let e = entries[9 * t + i + 1];
    assert((e & 0xffff) as u16 == e % 0x1_0000 && (e >> 32) as u32 == e / 0x1_0000_0000)
        by (bit_vector);
}

} // verus!
