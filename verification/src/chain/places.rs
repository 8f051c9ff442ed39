//! Where the buffers of the engine lie, and under which names.

use crate::align;
use crate::chain::engine;
use crate::chain::engine::Engine;
use crate::chain::error::Error;
use crate::chain::gguf::ModelConfig;
use crate::chain::kv_cache;
use crate::chain::memory;
use crate::chain::memory::Buffer;
use vstd::prelude::*;

verus! {

/// `b` is the first place for `size` bytes at a multiple of 128 behind `end`.
pub open spec fn follows(end: int, b: Buffer, size: int) -> bool {
    &&& b.size == size
    &&& b.offset % 128 == 0
    &&& end <= b.offset < end + 128
}

/// Where a buffer ends.
pub open spec fn end_of(b: Buffer) -> int {
    b.offset + b.size
}

proof fn lemma_ends_grow(used: int, sizes: Seq<u64>, j: nat, k: nat)
    requires
        0 <= used,
        j <= k <= sizes.len(),
    ensures
        0 <= memory::end_after(used, sizes, j) <= memory::end_after(used, sizes, k),
        j < k ==> memory::start_at(memory::end_after(used, sizes, j)) + sizes[j as int]
            <= memory::end_after(used, sizes, k),
    decreases k,
{
    if k > 0 {
        align::lemma_round_up(memory::end_after(used, sizes, (k - 1) as nat), 128);
        if j < k {
            lemma_ends_grow(used, sizes, j, (k - 1) as nat);
        } else {
            lemma_ends_grow(used, sizes, (k - 1) as nat, (k - 1) as nat);
        }
    }
}

/// The buffer at `i` of the list follows the end of those before it.
proof fn lemma_buffer(c: ModelConfig, max_context: u32, used: int, i: nat)
    requires
        0 <= used,
        i < 13,
        memory::end_after(used, engine::size_list(c, max_context), 13) <= u64::MAX,
        0 <= engine::buffer_sizes(c, max_context)[i as int] <= u64::MAX,
    ensures
        ({
            let sizes = engine::size_list(c, max_context);
            let b = engine::buffer_at(c, max_context, used, i);
            &&& follows(
                memory::end_after(used, sizes, i),
                b,
                engine::buffer_sizes(c, max_context)[i as int],
            )
            &&& memory::end_after(used, sizes, i + 1) == end_of(b)
        }),
{
    let sizes = engine::size_list(c, max_context);
    lemma_ends_grow(used, sizes, i, 13);
    align::lemma_round_up(memory::end_after(used, sizes, i), 128);
    let m: nat = i + 1;
    assert((m - 1) as nat == i);
}

/// The engine's buffers lie one behind the other, each at a multiple of 128:
/// the hidden state in single and in half precision, the queries, keys and
/// values of one token in half precision, the output of attention, a score for
/// every expert, the inner and the outer results of the active experts, a number
/// in single precision for every word, one token, and the two halves of the
/// cache, with 18 bytes for 32 keys and one byte for a value.
pub proof fn law_engine_buffers(e: Engine, max_context: u32, used: int)
    requires
        0 <= used,
        engine::buffers_fit(e.config, max_context),
        e.placed(max_context, used),
        memory::end_after(used, engine::size_list(e.config, max_context), 13) <= u64::MAX,
    ensures
        ({
            let c = e.config;
            let b = e.buffers;
            let k = e.kv_cache;
            let places = c.n_layers * c.n_heads_kv * max_context;
            &&& follows(used, b.hidden_fp32, 4 * c.hidden_dim)
            &&& follows(end_of(b.hidden_fp32), b.hidden_state, 2 * c.hidden_dim)
            &&& follows(end_of(b.hidden_state), b.q, 2 * (c.n_heads_q * c.head_dim))
            &&& follows(end_of(b.q), b.k, 2 * (c.n_heads_kv * c.head_dim))
            &&& follows(end_of(b.k), b.v, 2 * (c.n_heads_kv * c.head_dim))
            &&& follows(end_of(b.v), b.attn_output, 2 * c.hidden_dim)
            &&& follows(end_of(b.attn_output), b.gate_logits, 2 * c.n_experts)
            &&& follows(
                end_of(b.gate_logits),
                b.moe_intermediate,
                4 * (c.n_active_experts * c.ffn_intermediate),
            )
            &&& follows(
                end_of(b.moe_intermediate),
                b.moe_output,
                2 * (c.n_active_experts * c.hidden_dim),
            )
            &&& follows(end_of(b.moe_output), b.logits, 4 * c.vocab_size)
            &&& follows(end_of(b.logits), b.token_out, 4)
            &&& follows(end_of(b.token_out), k.k_q4, places * (c.head_dim / 32 * 18))
            &&& follows(end_of(k.k_q4), k.v_i8, places * c.head_dim)
            &&& k.seq_len == 0 && k.max_seq == max_context && k.n_layers == c.n_layers
            &&& k.n_kv_heads == c.n_heads_kv && k.head_dim == c.head_dim
        }),
{
    let c = e.config;
    let all = engine::buffer_sizes(c, max_context);
    assert(0 <= all[0] <= u64::MAX && 0 <= all[1] <= u64::MAX && 0 <= all[2] <= u64::MAX && 0
        <= all[3] <= u64::MAX && 0 <= all[4] <= u64::MAX && 0 <= all[5] <= u64::MAX && 0 <= all[6]
        <= u64::MAX && 0 <= all[7] <= u64::MAX && 0 <= all[8] <= u64::MAX && 0 <= all[9]
        <= u64::MAX && 0 <= all[10] <= u64::MAX && 0 <= all[11] <= u64::MAX && 0 <= all[12]
        <= u64::MAX);
    lemma_buffer(c, max_context, used, 0);
    lemma_buffer(c, max_context, used, 1);
    lemma_buffer(c, max_context, used, 2);
    lemma_buffer(c, max_context, used, 3);
    lemma_buffer(c, max_context, used, 4);
    lemma_buffer(c, max_context, used, 5);
    lemma_buffer(c, max_context, used, 6);
    lemma_buffer(c, max_context, used, 7);
    lemma_buffer(c, max_context, used, 8);
    lemma_buffer(c, max_context, used, 9);
    lemma_buffer(c, max_context, used, 10);
    lemma_buffer(c, max_context, used, 11);
    lemma_buffer(c, max_context, used, 12);
}

/// The keys and values of a place stand behind those of all places before it:
/// position by position, then head by head, then layer by layer.
pub proof fn law_cache_places_in_order(k: kv_cache::KvCache, layer: int, head: int, pos: int)
    requires
        k.has_place(layer, head, pos),
    ensures
        ({
            let keys = k.head_dim / 32 * 18;
            &&& k.k_place(0, 0, 0) == 0 && k.v_place(0, 0, 0) == 0
            &&& k.k_place(layer, head, pos + 1) == k.k_place(layer, head, pos) + keys
            &&& k.v_place(layer, head, pos + 1) == k.v_place(layer, head, pos) + k.head_dim
            &&& k.k_place(layer, head + 1, 0) == k.k_place(layer, head, k.max_seq as int)
            &&& k.v_place(layer, head + 1, 0) == k.v_place(layer, head, k.max_seq as int)
            &&& k.k_place(layer + 1, 0, 0) == k.k_place(layer, k.n_kv_heads as int, 0)
            &&& k.v_place(layer + 1, 0, 0) == k.v_place(layer, k.n_kv_heads as int, 0)
        }),
{
    let h = k.n_kv_heads as int;
    let m = k.max_seq as int;
    let kb = kv_cache::k_bytes(k.head_dim);
    let vb = k.head_dim as int;
    let row = layer * h + head;
    assert((row * m + (pos + 1)) * kb == (row * m + pos) * kb + kb) by (nonlinear_arith);
    assert((row * m + (pos + 1)) * vb == (row * m + pos) * vb + vb) by (nonlinear_arith);
    assert((row + 1) * m == row * m + m) by (nonlinear_arith);
    assert((layer + 1) * h == layer * h + h) by (nonlinear_arith);
    assert(layer * h + (head + 1) == row + 1);
    assert((0 * h + 0) * m + 0 == 0) by (nonlinear_arith);
    assert(0 * kb == 0 && 0 * vb == 0);
}

/// With different names, each of the first `k` sizes has a region under its
/// name: of that size, at the first multiple of 128 behind the region before.
/// Regions under other names stay.
pub proof fn law_regions_under_their_names(
    regions: Map<Seq<char>, (u64, u64)>,
    used: int,
    names: Seq<Seq<char>>,
    sizes: Seq<u64>,
    k: nat,
    i: int,
    other: Seq<char>,
)
    requires
        0 <= used,
        k <= sizes.len() == names.len(),
        memory::end_after(used, sizes, k) <= u64::MAX,
        forall|a: int, b: int|
            0 <= a < b < names.len() ==> #[trigger] names[a] != #[trigger] names[b],
        0 <= i < k,
        !names.contains(other),
    ensures
        ({
            let after = memory::regions_after(regions, used, names, sizes, k);
            let end = if i == 0 {
                used
            } else {
                after[names[i - 1]].0 + sizes[i - 1]
            };
            &&& after.contains_key(names[i])
            &&& after[names[i]].1 == sizes[i]
            &&& after[names[i]].0 % 128 == 0
            &&& end <= after[names[i]].0 < end + 128
            &&& after.contains_key(other) == regions.contains_key(other)
            &&& regions.contains_key(other) ==> after[other] == regions[other]
        }),
{
    lemma_regions(regions, used, names, sizes, k, i, other);
    if i > 0 {
        lemma_regions(regions, used, names, sizes, k, i - 1, other);
        lemma_ends_grow(used, sizes, (i - 1) as nat, k);
        align::lemma_round_up(memory::end_after(used, sizes, (i - 1) as nat), 128);
    }
    lemma_ends_grow(used, sizes, i as nat, k);
    align::lemma_round_up(memory::end_after(used, sizes, i as nat), 128);
}

proof fn lemma_regions(
    regions: Map<Seq<char>, (u64, u64)>,
    used: int,
    names: Seq<Seq<char>>,
    sizes: Seq<u64>,
    k: nat,
    i: int,
    other: Seq<char>,
)
    requires
        k <= sizes.len() == names.len(),
        forall|a: int, b: int|
            0 <= a < b < names.len() ==> #[trigger] names[a] != #[trigger] names[b],
        0 <= i,
        !names.contains(other),
    ensures
        ({
            let after = memory::regions_after(regions, used, names, sizes, k);
            &&& i < k ==> after.contains_key(names[i]) && after[names[i]] == (
                memory::start_at(memory::end_after(used, sizes, i as nat)) as u64,
                sizes[i],
            )
            &&& after.contains_key(other) == regions.contains_key(other)
            &&& regions.contains_key(other) ==> after[other] == regions[other]
        }),
    decreases k,
{
    if k > 0 {
        lemma_regions(regions, used, names, sizes, (k - 1) as nat, i, other);
        assert(names.contains(names[k - 1]));
    }
}

proof fn lemma_buffer_names(i: int, j: int)
    requires
        0 <= i < j < 13,
    ensures
        engine::buffer_names().len() == 13,
        engine::buffer_names()[i] != engine::buffer_names()[j],
{
    reveal_strlit("hidden_fp32");
    reveal_strlit("hidden_state");
    reveal_strlit("q");
    reveal_strlit("k");
    reveal_strlit("v");
    reveal_strlit("attn_output");
    reveal_strlit("gate_logits");
    reveal_strlit("moe_intermediate");
    reveal_strlit("moe_output");
    reveal_strlit("logits");
    reveal_strlit("token_out");
    reveal_strlit("kv_cache_k");
    reveal_strlit("kv_cache_v");
    let n = engine::buffer_names();
    let lengths: Seq<nat> = seq![11, 12, 1, 1, 1, 11, 11, 16, 10, 6, 9, 10, 10];
    let ends: Seq<char> = seq!['2', 'e', 'q', 'k', 'v', 't', 's', 'e', 't', 's', 't', 'k', 'v'];
    assert(n[i].len() == lengths[i] && n[i].last() == ends[i]);
    assert(n[j].len() == lengths[j] && n[j].last() == ends[j]);
}

/// The arena holds every buffer of the engine under the buffer's own name.
pub proof fn law_buffers_under_their_names(
    e: Engine,
    max_context: u32,
    used: int,
    regions: Map<Seq<char>, (u64, u64)>,
)
    requires
        e.placed(max_context, used),
    ensures
        ({
            let r = memory::regions_after(
                regions,
                used,
                engine::buffer_names(),
                engine::size_list(e.config, max_context),
                13,
            );
            let b = e.buffers;
            &&& r["hidden_fp32"@] == (b.hidden_fp32.offset, b.hidden_fp32.size)
            &&& r["hidden_state"@] == (b.hidden_state.offset, b.hidden_state.size)
            &&& r["q"@] == (b.q.offset, b.q.size)
            &&& r["k"@] == (b.k.offset, b.k.size)
            &&& r["v"@] == (b.v.offset, b.v.size)
            &&& r["attn_output"@] == (b.attn_output.offset, b.attn_output.size)
            &&& r["gate_logits"@] == (b.gate_logits.offset, b.gate_logits.size)
            &&& r["moe_intermediate"@] == (b.moe_intermediate.offset, b.moe_intermediate.size)
            &&& r["moe_output"@] == (b.moe_output.offset, b.moe_output.size)
            &&& r["logits"@] == (b.logits.offset, b.logits.size)
            &&& r["token_out"@] == (b.token_out.offset, b.token_out.size)
            &&& r["kv_cache_k"@] == (e.kv_cache.k_q4.offset, e.kv_cache.k_q4.size)
            &&& r["kv_cache_v"@] == (e.kv_cache.v_i8.offset, e.kv_cache.v_i8.size)
        }),
{
    let names = engine::buffer_names();
    let sizes = engine::size_list(e.config, max_context);
    assert forall|a: int, b: int| 0 <= a < b < names.len() implies #[trigger] names[a]
        != #[trigger] names[b] by {
        lemma_buffer_names(a, b);
    }
    let other = names[0] + names[0];
    reveal_strlit("hidden_fp32");
    assert(!names.contains(other)) by {
        lemma_short_names(other);
    }
    lemma_regions(regions, used, names, sizes, 13, 0, other);
    lemma_regions(regions, used, names, sizes, 13, 1, other);
    lemma_regions(regions, used, names, sizes, 13, 2, other);
    lemma_regions(regions, used, names, sizes, 13, 3, other);
    lemma_regions(regions, used, names, sizes, 13, 4, other);
    lemma_regions(regions, used, names, sizes, 13, 5, other);
    lemma_regions(regions, used, names, sizes, 13, 6, other);
    lemma_regions(regions, used, names, sizes, 13, 7, other);
    lemma_regions(regions, used, names, sizes, 13, 8, other);
    lemma_regions(regions, used, names, sizes, 13, 9, other);
    lemma_regions(regions, used, names, sizes, 13, 10, other);
    lemma_regions(regions, used, names, sizes, 13, 11, other);
    lemma_regions(regions, used, names, sizes, 13, 12, other);
}

proof fn lemma_short_names(other: Seq<char>)
    requires
        other.len() == 22,
    ensures
        !engine::buffer_names().contains(other),
{
    reveal_strlit("hidden_fp32");
    reveal_strlit("hidden_state");
    reveal_strlit("q");
    reveal_strlit("k");
    reveal_strlit("v");
    reveal_strlit("attn_output");
    reveal_strlit("gate_logits");
    reveal_strlit("moe_intermediate");
    reveal_strlit("moe_output");
    reveal_strlit("logits");
    reveal_strlit("token_out");
    reveal_strlit("kv_cache_k");
    reveal_strlit("kv_cache_v");
    let n = engine::buffer_names();
    let lengths: Seq<nat> = seq![11, 12, 1, 1, 1, 11, 11, 16, 10, 6, 9, 10, 10];
    assert forall|i: int| 0 <= i < n.len() implies #[trigger] n[i] != other by {
        assert(n[i].len() == lengths[i]);
    }
}

/// The cache takes all the positions that are asked for and has room for them,
/// or it is full and says how many it holds; nothing else of it changes.
pub proof fn law_cache_advances(
    before: kv_cache::KvCache,
    after: kv_cache::KvCache,
    n: u32,
    ok: bool,
    e: Error,
)
    requires
        engine::advanced(before, after, n, ok),
        before.seq_len <= before.max_seq,
    ensures
        after.k_q4 == before.k_q4 && after.v_i8 == before.v_i8,
        after.max_seq == before.max_seq,
        before.seq_len <= after.seq_len <= after.max_seq,
        ok ==> after.seq_len - before.seq_len == n,
        !ok ==> after.seq_len == after.max_seq && before.max_seq - before.seq_len < n,
        engine::is_full(e, after) ==> e is KvCacheFull && e->KvCacheFull_0 == after.seq_len
            && e->KvCacheFull_1 == after.max_seq,
{
}

/// What is said of a size that does not fit: how much is needed, and less than
/// that is there.
pub proof fn law_shortage_is_told(e: Error, used: int, total: int, size: u64)
    requires
        0 <= used,
        memory::is_out_of_memory(e, used, total, size),
        memory::start_at(used) + size > total,
        size > 0,
    ensures
        e is OutOfMemory,
        e->needed == size,
        e->available < e->needed,
        used + e->available <= total || e->available == 0,
{
    align::lemma_round_up(used, 128);
}

} // verus!
