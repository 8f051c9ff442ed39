//! What the steps of a pass are for: which shader runs, over what, and how much
//! of it the groups cover.

use crate::align;
use crate::chain::cli;
use crate::chain::cli::ArgsModel;
use crate::chain::constants;
use crate::chain::constants::{
    AttentionPC, LinearPC, MTPBlockPC, MoEPC, PushBlock, RMSNormPC, RouterPC, SamplePC,
};
use crate::chain::dispatch;
use crate::chain::dispatch::{BarrierKind, DispatchStep, RecordedStep, StepPlan};
use crate::chain::engine;
use crate::chain::gguf::{GgufDtype, ModelConfig};
use crate::chain::mtp;
use crate::chain::probe;
use crate::chain::probe::{ProbeBindings, ProbeQkvPC};
use crate::chain::weights;
use crate::text;
use vstd::prelude::*;

verus! {

/// So many groups of this size hold all `n` items, and no group is empty.
pub open spec fn covers(groups: u32, size: int, n: int) -> bool {
    size * groups - size < n <= size * groups
}

/// A step runs this shader with these constants.
pub open spec fn runs(s: StepPlan, shader: Seq<char>, words: Seq<u32>) -> bool {
    s.pipeline == shader && s.words == words && s.z == 1 && s.buffers.len() == 0
}

/// The state-space branch of a layer: norm, projection, convolution, scan and
/// output, from the hidden state and back to it.
pub proof fn law_state_space_steps(c: ModelConfig, max_seq: u32, seq_len: u32)
    requires
        engine::dims_fit(c),
    ensures
        ({
            let p = engine::layer_plan(c, max_seq, seq_len);
            let dim = c.hidden_dim;
            &&& p.len() == 16 + 2 * c.n_active_experts
            &&& runs(p[0], "ssm_norm"@, seq![128, dim, c.eps_bits]) && p[0].x == 1 && p[0].y == 1
            &&& runs(p[1], "ssm_proj"@, seq![32, dim, 0]) && p[1].x == 1 && p[1].y == 1
            &&& runs(p[2], "ssm_conv"@, seq![4, 8192, 0]) && covers(p[2].x, 256, 8192)
            &&& p[2].y == 1
            &&& runs(p[3], "ssm_scan"@, seq![32, 16, 0x4380_0000]) && p[3].x == 16 && p[3].y == 1
            &&& runs(p[4], "ssm_out"@, seq![dim, 4096, 0]) && covers(p[4].x, 256, dim as int)
            &&& p[4].y == 1
        }),
{
    assert(engine::rms_words(128, c.hidden_dim, c.eps_bits) =~= seq![128, c.hidden_dim, c.eps_bits]);
    assert(engine::rms_words(32, c.hidden_dim, 0) =~= seq![32, c.hidden_dim, 0]);
    assert(engine::rms_words(4, 8192, 0) =~= seq![4, 8192, 0]);
    assert(engine::rms_words(c.hidden_dim, 4096, 0) =~= seq![c.hidden_dim, 4096, 0]);
    assert(engine::rms_words(32, 16, 0x4380_0000) =~= seq![32, 16, 0x4380_0000]);
}

/// The attention branch of a layer: norm, projection to all query heads, rotation
/// and attention with a group for each query head, the cache write with a group
/// for each pair of keys and values, which is the one step that flushes memory,
/// and the residual.
pub proof fn law_attention_steps(c: ModelConfig, max_seq: u32, seq_len: u32)
    requires
        engine::dims_fit(c),
    ensures
        ({
            let p = engine::layer_plan(c, max_seq, seq_len);
            let dim = c.hidden_dim;
            let heads = seq![seq_len, c.n_heads_q, c.n_heads_kv, c.head_dim, max_seq];
            &&& runs(p[5], "rms_norm"@, seq![seq_len, dim, c.eps_bits])
            &&& covers(p[5].x, 256, dim as int) && p[5].y == 1
            &&& p[6].pipeline == "qkv"@ && p[6].words.len() == 4 && p[6].words[0] == dim
            &&& p[6].words[1] == c.n_heads_q * c.head_dim && p[6].words[2] == 0 && p[6].words[3]
                == 0
            &&& covers(p[6].x, 64, dim as int) && p[6].y == c.n_heads_q
            &&& runs(p[7], "rope"@, heads.update(4, 0)) && p[7].x == c.n_heads_q && p[7].y == 1
            &&& runs(p[8], "attention"@, heads) && p[8].x == c.n_heads_q && p[8].y == 1
            &&& runs(p[9], "kv_write"@, heads) && p[9].x == c.n_heads_kv && p[9].y == 1
            &&& p[9].barrier == BarrierKind::MemoryFlush
            &&& runs(p[10], "residual_add"@, seq![seq_len, dim, 0])
            &&& covers(p[10].x, 256, dim as int) && p[10].y == 1
        }),
{
    let heads = seq![seq_len, c.n_heads_q, c.n_heads_kv, c.head_dim, max_seq];
    assert(heads.update(4, 0) =~= seq![seq_len, c.n_heads_q, c.n_heads_kv, c.head_dim, 0]);
    assert(engine::rms_words(seq_len, c.hidden_dim, c.eps_bits) =~= seq![
        seq_len,
        c.hidden_dim,
        c.eps_bits,
    ]);
    assert(engine::rms_words(seq_len, c.hidden_dim, 0) =~= seq![seq_len, c.hidden_dim, 0]);
}

/// The experts of a layer: norm and router, a gate and up projection for each
/// active expert by its number, the activation over all of them, a down
/// projection for each, the weighted sum and the residual.
pub proof fn law_expert_steps(c: ModelConfig, max_seq: u32, seq_len: u32, e: int)
    requires
        engine::dims_fit(c),
    ensures
        ({
            let p = engine::layer_plan(c, max_seq, seq_len);
            let dim = c.hidden_dim;
            let a = c.n_active_experts as int;
            &&& runs(p[11], "rms_norm"@, seq![seq_len, dim, c.eps_bits])
            &&& covers(p[11].x, 256, dim as int)
            &&& runs(
                p[12],
                "router_topk"@,
                seq![dim, c.n_experts, c.n_active_experts, c.n_shared_experts],
            ) && p[12].x == 1 && p[12].y == 1
            &&& 0 <= e < a ==> {
                &&& runs(
                    p[13 + e],
                    "moe_gate_up"@,
                    seq![dim, c.ffn_intermediate, e as u32, 0],
                )
                &&& covers(p[13 + e].x, 64, dim as int) && p[13 + e].y == 1
                &&& runs(
                    p[14 + a + e],
                    "moe_down"@,
                    seq![dim, c.ffn_intermediate, e as u32, 0],
                )
                &&& covers(p[14 + a + e].x, 64, dim as int) && p[14 + a + e].y == 1
            }
            &&& runs(p[13 + a], "silu_mult"@, seq![dim, c.ffn_intermediate, 0, 0])
            &&& covers(p[13 + a].x, 256, c.ffn_intermediate as int) && p[13 + a].y == a
            &&& runs(
                p[14 + 2 * a],
                "moe_combine"@,
                seq![dim, c.n_experts, c.n_active_experts, 0],
            )
            &&& covers(p[14 + 2 * a].x, 256, dim as int)
            &&& runs(p[15 + 2 * a], "residual_add"@, seq![seq_len, dim, 0])
            &&& covers(p[15 + 2 * a].x, 256, dim as int)
        }),
{
    assert(engine::rms_words(seq_len, c.hidden_dim, c.eps_bits) =~= seq![
        seq_len,
        c.hidden_dim,
        c.eps_bits,
    ]);
    assert(engine::rms_words(seq_len, c.hidden_dim, 0) =~= seq![seq_len, c.hidden_dim, 0]);
}

proof fn lemma_layers(c: ModelConfig, max_seq: u32, seq_len: u32, n: nat, k: int, i: int)
    requires
        0 <= k < n,
        0 <= i < 16 + 2 * c.n_active_experts,
    ensures
        engine::layers_plan(c, max_seq, seq_len, n).len() == n * (16 + 2 * c.n_active_experts),
        k * (16 + 2 * c.n_active_experts) + i < n * (16 + 2 * c.n_active_experts),
        engine::layers_plan(c, max_seq, seq_len, n)[k * (16 + 2 * c.n_active_experts) + i]
            == engine::layer_plan(c, max_seq, seq_len)[i],
    decreases n,
{
    let size = 16 + 2 * c.n_active_experts as int;
    let one = engine::layer_plan(c, max_seq, seq_len);
    assert(one.len() == size);
    let before = engine::layers_plan(c, max_seq, seq_len, (n - 1) as nat);
    assert((n - 1) * size + size == n * size) by (nonlinear_arith);
    assert(k * size + i < n * size) by (nonlinear_arith)
        requires
            k + 1 <= n,
            i < size,
            size > 0,
    ;
    if n == 1 {
        assert(before.len() == 0);
    } else {
        lemma_layers(c, max_seq, seq_len, (n - 1) as nat, if k < n - 1 {
            k
        } else {
            0
        }, i);
    }
}

/// A pass embeds its tokens, runs every layer alike, one after the other, and
/// projects to the vocabulary: the last position for a token that is then
/// sampled, or, over drafts, every position.
pub proof fn law_pass_steps(c: ModelConfig, max_seq: u32, seq_len: u32, k: int, i: int)
    requires
        engine::dims_fit(c),
        0 <= k < c.n_layers,
        0 <= i < 16 + 2 * c.n_active_experts,
    ensures
        ({
            let p = engine::forward_plan(c, max_seq, seq_len);
            let v = engine::verify_plan(c, max_seq, seq_len);
            let size = 16 + 2 * c.n_active_experts as int;
            let end = 1 + c.n_layers * size;
            &&& p.len() == end + 2 && v.len() == end + 1
            &&& runs(p[0], "embed"@, seq![seq_len, 0, 0, 0, 0]) && p[0].x == seq_len
            &&& v[0] == p[0]
            &&& p[1 + k * size + i] == engine::layer_plan(c, max_seq, seq_len)[i]
            &&& v[1 + k * size + i] == p[1 + k * size + i]
            &&& runs(p[end], "lm_head"@, seq![c.hidden_dim, c.vocab_size, 0, 0])
            &&& covers(p[end].x, 256, c.vocab_size as int) && p[end].y == 1
            &&& runs(v[end], "lm_head"@, seq![c.hidden_dim, c.vocab_size, 0, 0])
            &&& covers(v[end].x, 256, c.vocab_size as int) && v[end].y == seq_len
            &&& runs(p[end + 1], "sample"@, seq![c.vocab_size, 0x3f80_0000, 0x3f80_0000, 0])
            &&& p[end + 1].x == 1 && p[end + 1].y == 1
            &&& p[end + 1].barrier == BarrierKind::HostRead
        }),
{
    lemma_layers(c, max_seq, seq_len, c.n_layers as nat, k, i);
}

/// A draft round: norm over the last token and the hidden state, attention with
/// a group for each query head, both at the position behind those processed and
/// drafted, the feed-forward network, and the head, whose token the host reads.
/// All of them run the module of this round.
pub proof fn law_draft_steps(c: ModelConfig, position: u32, d: u32)
    requires
        engine::dims_fit(c),
        position + d < u32::MAX,
    ensures
        ({
            let p = mtp::draft_plan(c, position, d);
            let heads = seq![c.hidden_dim, c.head_dim, c.n_heads_q, c.n_heads_kv];
            let here = heads.push((position + d + 1) as u32).push(d);
            &&& p.len() == 4
            &&& runs(p[0], "mtp_concat_norm"@, here)
            &&& covers(p[0].x, 256, c.hidden_dim as int) && p[0].y == 1
            &&& runs(p[1], "mtp_attention"@, here) && p[1].x == c.n_heads_q && p[1].y == 1
            &&& runs(p[2], "mtp_ffn"@, heads.push(0).push(d))
            &&& covers(p[2].x, 256, c.hidden_dim as int) && p[2].y == 1
            &&& runs(p[3], "mtp_head"@, seq![c.vocab_size, 0x3f80_0000, 0x3f80_0000, 0])
            &&& p[3].x == 1 && p[3].y == 1
        }),
{
    let heads = seq![c.hidden_dim, c.head_dim, c.n_heads_q, c.n_heads_kv];
    let pos = (position + d + 1) as u32;
    assert(mtp::block_words(c, pos, d) =~= heads.push(pos).push(d));
    assert(mtp::block_words(c, 0, d) =~= heads.push(0).push(d));
}

/// As many rounds are drafted as there are modules and as the depth allows.
pub proof fn law_draft_rounds(r: mtp::MtpRunner)
    ensures
        r.round_count() <= r.n_modules,
        r.round_count() <= r.depth,
        r.round_count() == r.n_modules || r.round_count() == r.depth,
{
}

/// In every layer each step waits for the one before it, and the cache write is
/// the one that flushes memory; of a whole pass only the sampling hands memory
/// to the host.
pub proof fn law_steps_wait(c: ModelConfig, max_seq: u32, seq_len: u32, i: int)
    requires
        0 <= i < 16 + 2 * c.n_active_experts,
    ensures
        engine::layer_plan(c, max_seq, seq_len)[i].barrier == if i == 9 {
            BarrierKind::MemoryFlush
        } else {
            BarrierKind::ExecOnly
        },
        engine::embed_plan(seq_len)[0].barrier == BarrierKind::ExecOnly,
        engine::head_plan(c, seq_len)[0].barrier == BarrierKind::ExecOnly,
        engine::sample_plan(c)[0].barrier == BarrierKind::HostRead,
{
}

/// The words of a block are its fields in order.
pub proof fn law_blocks_in_words(
    norm: RMSNormPC,
    linear: LinearPC,
    attention: AttentionPC,
    router: RouterPC,
    moe: MoEPC,
    sample: SamplePC,
    block: MTPBlockPC,
)
    ensures
        norm.words() == seq![norm.rows, norm.dim, norm.eps_bits],
        linear.words().len() == 4,
        linear.words()[0] == linear.in_dim && linear.words()[1] == linear.out_dim,
        attention.words().len() == 5,
        attention.words()[0] == attention.seq_len && attention.words()[1] == attention.n_heads,
        attention.words()[2] == attention.n_kv_heads && attention.words()[3] == attention.head_dim,
        attention.words()[4] == attention.max_seq_len,
        router.words() == seq![router.dim, router.n_experts, router.n_active, router.n_shared],
        moe.words() == seq![moe.dim, moe.intermediate, moe.expert_idx, moe.is_shared],
        sample.words().len() == 4,
        sample.words()[0] == sample.vocab_size && sample.words()[1] == sample.temperature_bits,
        sample.words()[2] == sample.top_p_bits && sample.words()[3] == sample.top_k,
        block.words().len() == 6,
        block.words()[0] == block.dim && block.words()[1] == block.head_dim,
        block.words()[2] == block.n_heads && block.words()[3] == block.n_kv_heads,
        block.words()[4] == block.pos && block.words()[5] == block.block_idx,
{
}

/// Four bytes from `at` on as a number, the first one least.
pub open spec fn up_from(b: Seq<u8>, at: int) -> int {
    b[at] + 0x100 * b[at + 1] + 0x1_0000 * b[at + 2] + 0x100_0000 * b[at + 3]
}

/// Four bytes from `at` on as a number, the last one least.
pub open spec fn down_from(b: Seq<u8>, at: int) -> int {
    b[at + 3] + 0x100 * b[at + 2] + 0x1_0000 * b[at + 1] + 0x100_0000 * b[at]
}

/// The 128 bytes of a block hold its words four bytes each, all in one byte
/// order, and zeros behind them.
pub proof fn law_bytes_hold_the_words(data: Seq<u8>, words: Seq<u32>, i: int)
    requires
        words.len() <= 32,
        constants::holds_words(data, words),
        0 <= i < 32,
    ensures
        data.len() == 128,
        ({
            let w = if i < words.len() {
                words[i] as int
            } else {
                0
            };
            up_from(data, 4 * i) == w || down_from(data, 4 * i) == w
        }),
        (forall|k: int|
            0 <= k < 32 ==> #[trigger] up_from(data, 4 * k) == constants::padded(words)[k]) || (
        forall|k: int|
            0 <= k < 32 ==> #[trigger] down_from(data, 4 * k) == constants::padded(words)[k]),
{
    let all = constants::padded(words);
    assert(all.len() == 32);
    assert forall|k: int| 0 <= k < 32 && data == constants::little_endian(all) implies
        #[trigger] up_from(data, 4 * k) == all[k] by {
        lemma_word(all[k]);
        lemma_places(k);
    }
    assert forall|k: int| 0 <= k < 32 && data == constants::big_endian(all) implies
        #[trigger] down_from(data, 4 * k) == all[k] by {
        lemma_word(all[k]);
        lemma_places(k);
    }
    if data == constants::little_endian(all) {
        assert(up_from(data, 4 * i) == all[i]);
    } else {
        assert(down_from(data, 4 * i) == all[i]);
    }
}

proof fn lemma_places(k: int)
    ensures
        (4 * k) / 4 == k && (4 * k) % 4 == 0,
        (4 * k + 1) / 4 == k && (4 * k + 1) % 4 == 1,
        (4 * k + 2) / 4 == k && (4 * k + 2) % 4 == 2,
        (4 * k + 3) / 4 == k && (4 * k + 3) % 4 == 3,
{
}

proof fn lemma_word(w: u32)
    ensures
        constants::word_byte(w, 0) + 0x100 * constants::word_byte(w, 1) + 0x1_0000
            * constants::word_byte(w, 2) + 0x100_0000 * constants::word_byte(w, 3) == w,
{
    assert(((w >> 0) & 0xff) as u8 + 0x100 * (((w >> 8) & 0xff) as u8) + 0x1_0000 * (((w >> 16)
        & 0xff) as u8) + 0x100_0000 * (((w >> 24) & 0xff) as u8) == w) by (bit_vector);
}

/// Every barrier waits for compute shaders. One that only orders names no
/// access; a flush makes storage writes visible to storage reads of compute
/// shaders; and the host's reads wait on the host's stage.
pub proof fn law_barriers_have_their_masks(k: BarrierKind)
    ensures
        k.masks_spec() is None <==> k is NoBarrier,
        k.masks_spec() matches Some(m) ==> m.src_stage == 0x800,
        k.masks_spec() matches Some(m) ==> (m.dst_stage == if k is HostRead {
            0x4000u64
        } else {
            0x800
        }),
        k.masks_spec() matches Some(m) ==> (m.src_access == if k is ExecOnly {
            0u64
        } else {
            0x4_0000_0000
        }),
        k is ExecOnly ==> k.masks_spec()->0.dst_access == 0,
        k is MemoryFlush ==> k.masks_spec()->0.dst_access == 0x2_0000_0000,
        k is HostRead ==> k.masks_spec()->0.dst_access == 0x2000,
{
}

/// A step of the trial runs this shader with these constants.
pub open spec fn tries(s: StepPlan, shader: Seq<char>, words: Seq<u32>) -> bool {
    s.pipeline == shader && s.words == words && s.z == 1
}

/// The trial runs one attention block over one token: the hidden state is normed
/// with the first norm's weights; the projection reads it and the projection's
/// weights and writes queries, keys and values, which are rotated; attention
/// reads all three, and the keys and values once more as the cache, and writes
/// its output; the keys and values are written; the output is added to the
/// hidden state, and that is normed with the last norm's weights.
pub proof fn law_trial_steps(c: ModelConfig, b: ProbeBindings)
    requires
        engine::dims_fit(c),
    ensures
        ({
            let p = probe::probe_plan(c, b);
            let dim = c.hidden_dim;
            let heads = seq![1, c.n_heads_q, c.n_heads_kv, c.head_dim, dim];
            let norm = seq![1, dim, 0x3586_37bd];
            &&& p.len() == 7
            &&& tries(p[0], "rms_norm"@, norm) && covers(p[0].x, 256, dim as int) && p[0].y == 1
            &&& p[0].buffers == seq![b.hidden, b.pre_norm, b.pre_norm, b.hidden, b.pre_norm]
            &&& p[0].barrier == BarrierKind::ExecOnly
            &&& p[1].pipeline == "qkv"@ && p[1].words.len() == 12 && p[1].words[1] == dim
            &&& p[1].words[8] == c.n_heads_q && p[1].words[9] == c.n_heads_kv
            &&& p[1].words[10] == c.head_dim && p[1].words[11] == 1 && p[1].words[0] == 0
            &&& forall|i: int| 2 <= i < 8 ==> #[trigger] p[1].words[i] == 0
            &&& covers(p[1].x, 64, dim as int) && p[1].y == c.n_heads_q
            &&& p[1].buffers == seq![b.hidden, b.qkv, b.qkv, b.q, b.k, b.v]
            &&& p[1].barrier == BarrierKind::ExecOnly
            &&& tries(p[2], "rope"@, heads) && p[2].x == c.n_heads_q && p[2].y == 1
            &&& p[2].buffers == seq![b.q, b.k] && p[2].barrier == BarrierKind::ExecOnly
            &&& tries(p[3], "attention"@, heads) && p[3].x == c.n_heads_q && p[3].y == 1
            &&& p[3].buffers == seq![b.q, b.k, b.v, b.k, b.v, b.attn]
            &&& p[3].barrier == BarrierKind::MemoryFlush
            &&& tries(p[4], "kv_write"@, heads) && p[4].x == c.n_heads_kv && p[4].y == 1
            &&& p[4].buffers == seq![b.k, b.v, b.k, b.v]
            &&& p[4].barrier == BarrierKind::MemoryFlush
            &&& tries(p[5], "residual_add"@, seq![0, dim, 0]) && covers(p[5].x, 256, dim as int)
            &&& p[5].buffers == seq![b.hidden, b.attn, b.attn, b.attn]
            &&& p[5].barrier == BarrierKind::ExecOnly && p[5].y == 1
            &&& tries(p[6], "rms_norm"@, norm) && covers(p[6].x, 256, dim as int) && p[6].y == 1
            &&& p[6].buffers == seq![b.hidden, b.post_norm, b.post_norm, b.hidden, b.post_norm]
            &&& p[6].barrier == BarrierKind::MemoryFlush
        }),
{
}

/// The words of the trial's projection are those that the plan names.
pub proof fn law_trial_projection_words(c: ModelConfig, b: ProbeBindings, pc: ProbeQkvPC)
    requires
        pc.dim == c.hidden_dim,
        pc.n_heads == c.n_heads_q,
        pc.n_kv_heads == c.n_heads_kv,
        pc.head_dim == c.head_dim,
    ensures
        pc.words() == probe::probe_plan(c, b)[1].words,
{
    assert(pc.words() =~= probe::probe_plan(c, b)[1].words);
}

/// The trial's buffers lie one behind the other, each at a multiple of 128: the
/// hidden state, the queries, the keys, the values and the output of attention,
/// four bytes for each number.
pub proof fn law_trial_buffers(c: ModelConfig, i: nat)
    requires
        i < 5,
    ensures
        ({
            let s = probe::probe_sizes(c);
            let a = probe::probe_start(c, i);
            let e = probe::probe_start(c, i + 1);
            &&& s[0] == 4 * c.hidden_dim
            &&& s[1] == 4 * (c.n_heads_q * c.head_dim)
            &&& s[2] == 4 * (c.n_heads_kv * c.head_dim)
            &&& s[3] == 4 * (c.n_heads_kv * c.head_dim)
            &&& s[4] == 4 * c.hidden_dim
            &&& probe::probe_start(c, 0) == 0
            &&& a % 128 == 0
            &&& a + s[i as int] <= e < a + s[i as int] + 128
        }),
    decreases i,
{
    let s = probe::probe_sizes(c);
    align::lemma_round_up(s[i as int], 128);
    let m: nat = i + 1;
    assert((m - 1) as nat == i);
    if i > 0 {
        law_trial_buffers(c, (i - 1) as nat);
        let j = (i - 1) as nat;
        align::lemma_round_up(s[j as int], 128);
        let a = probe::probe_start(c, j);
        let b = align::round_up(s[j as int], 128);
        assert((a + b) % 128 == 0) by {
            assert(a % 128 == 0 && b % 128 == 0);
        }
    }
}

/// An option takes the argument behind it and sets its own value; a switch is
/// turned on; what is not known is passed over. A number that cannot be read
/// counts as the usual one, and an option that lacks its value ends the reading.
pub proof fn law_options_set_their_value(raw: Seq<Seq<char>>, i: int, a: ArgsModel, n: nat)
    requires
        0 <= i < raw.len(),
    ensures
        ({
            let last = i == raw.len() - 1;
            let r = cli::parse_from(raw, i, a);
            let takes = raw[i] == "--model"@ || raw[i] == "--port"@ || raw[i] == "--max-context"@;
            &&& takes && last ==> r is None
            &&& raw[i] == "--model"@ && !last ==> r == cli::parse_from(
                raw,
                i + 2,
                ArgsModel { model: Some(raw[i + 1]), ..a },
            )
            &&& raw[i] == "--port"@ && !last && raw[i + 1] == text::decimal(n) && n <= u16::MAX
                ==> r == cli::parse_from(raw, i + 2, ArgsModel { port: n as u16, ..a })
            &&& raw[i] == "--port"@ && !last && raw[i + 1].len() == 0 ==> r == cli::parse_from(
                raw,
                i + 2,
                ArgsModel { port: 8787, ..a },
            )
            &&& raw[i] == "--max-context"@ && !last && raw[i + 1] == text::decimal(n) && n
                <= u32::MAX ==> r == cli::parse_from(
                raw,
                i + 2,
                ArgsModel { max_context: n as u32, ..a },
            )
            &&& raw[i] == "--max-context"@ && !last && raw[i + 1].len() == 0 ==> r
                == cli::parse_from(raw, i + 2, ArgsModel { max_context: 4096, ..a })
            &&& raw[i] == "--smoke"@ ==> r == cli::parse_from(
                raw,
                i + 1,
                ArgsModel { smoke: true, ..a },
            )
            &&& raw[i] == "--test-forward"@ ==> r == cli::parse_from(
                raw,
                i + 1,
                ArgsModel { test_forward: true, ..a },
            )
            &&& !takes && raw[i] != "--smoke"@ && raw[i] != "--test-forward"@ ==> r
                == cli::parse_from(raw, i + 1, a)
        }),
{
    reveal_strlit("--model");
    reveal_strlit("--port");
    reveal_strlit("--max-context");
    reveal_strlit("--smoke");
    reveal_strlit("--test-forward");
    assert("--model"@[2] == 'm' && "--smoke"@[2] == 's');
    assert("--model"@.len() == 7 && "--port"@.len() == 6 && "--max-context"@.len() == 13
        && "--smoke"@.len() == 7 && "--test-forward"@.len() == 14);
    text::law_decimal_reads_back(n);
    assert(text::is_digit(text::decimal(n)[0]));
    assert(text::without_plus(text::decimal(n)) == text::decimal(n));
}

/// What is recorded for a planned step is what the plan says: its shader is the
/// one of that name, its groups are those of the plan in each dimension, its
/// buffers stand in the plan's slots, and its barrier has the masks of its kind.
pub proof fn law_recording_follows_the_plan(
    plan: StepPlan,
    step: DispatchStep,
    r: RecordedStep,
    i: int,
)
    requires
        step.follows(plan),
        r.records(step),
        0 <= i < plan.buffers.len(),
    ensures
        crate::chain::shaders::shader_list()[r.shader as int] == plan.pipeline,
        r.workgroup_x == plan.x,
        r.workgroup_y == plan.y,
        r.workgroup_z == plan.z,
        r.buffers@.len() == plan.buffers.len(),
        r.buffers@[i] == plan.buffers[i],
        r.barrier == plan.barrier.masks_spec(),
        constants::holds_words(r.push_data@, plan.words),
{
}

/// A step is recorded when its pipeline is loaded and listed; else the message
/// names the pipeline.
pub proof fn law_steps_need_their_pipeline(loaded: Seq<String>, step: DispatchStep)
    ensures
        ({
            let name = step.pipeline_name@;
            let known = exists|i: int| 0 <= i < loaded.len() && #[trigger] loaded[i]@ == name;
            let listed = crate::chain::shaders::shader_list().contains(name);
            &&& dispatch::step_fault(loaded, step) is None <==> known && listed
            &&& !known ==> dispatch::step_fault(loaded, step) == Some("unknown pipeline: "@ + name)
        }),
{
}

/// Of a tensor in single precision that is longer than sixteen bytes, sixteen
/// are passed over, and of no other tensor any.
pub proof fn law_prefix_is_passed_over(t: GgufDtype, size: u64)
    ensures
        weights::skipped(t, size) <= size,
        weights::skipped(t, size) == 16 <==> t is F32 && size > 16,
        weights::skipped(t, size) == 0 <==> !(t is F32) || size <= 16,
{
}

} // verus!
