//! What stands where in the arena: the room of every region, the order in which
//! tensors are placed, and the bytes that a layer's tables lead to.

use crate::bytes;
use crate::gguf::{ModelConfig, TensorInfo};
use crate::memory;
use crate::memory::{ArenaLayout, LayerWeights, TensorEntry};
use crate::quantize;
use crate::reference;
use crate::text;
use vstd::prelude::*;

verus! {

/// From `start` to `end` there is room for `need` bytes, in whole lines of 64
/// bytes and with no line to spare.
pub open spec fn is_room(start: u64, end: u64, need: int) -> bool {
    &&& start % 64 == 0
    &&& end % 64 == 0
    &&& start + need <= end < start + need + 64
}

/// From one start to the next there are the lines of the region between.
proof fn lemma_room(cfg: ModelConfig, weights_size: u64, k: nat)
    requires
        k < 12,
    ensures
        ({
            let a = memory::region_start(cfg, weights_size, k);
            let b = memory::region_start(cfg, weights_size, k + 1);
            let need = memory::region_needs(cfg, weights_size)[k as int];
            &&& a % 64 == 0
            &&& b % 64 == 0
            &&& b == a + memory::lines(need)
            &&& need <= memory::lines(need) < need + 64
        }),
    decreases k,
{
    let need = memory::region_needs(cfg, weights_size)[k as int];
    memory::lemma_lines(need);
    let m: nat = k + 1;
    assert((m - 1) as nat == k);
    if k > 0 {
        lemma_room(cfg, weights_size, (k - 1) as nat);
    } else {
        assert(memory::region_start(cfg, weights_size, 0) == 64);
    }
    let a = memory::region_start(cfg, weights_size, k);
    let b = memory::lines(need);
    assert((a + b) % 64 == 0) by {
        assert(a % 64 == 0 && b % 64 == 0);
    }
}

/// The arena holds, one behind the other from byte 64 on: the weights; the
/// hidden state of the whole context in half precision, twice; ten layers of
/// keys and values, 288 bytes each for a token; a state of 128 by 128 numbers
/// for each of 16 by 32 heads in thirty layers; and the hidden state once more.
pub proof fn law_layout_of_states(layout: ArenaLayout, cfg: ModelConfig, weights_size: u64)
    requires
        layout.is_for(cfg, weights_size),
    ensures
        ({
            let ctx = cfg.context_length as int;
            let hidden = 2 * (ctx * cfg.embedding_length);
            &&& layout.weights_base == 64
            &&& is_room(layout.weights_base, layout.hidden_ping, weights_size as int)
            &&& is_room(layout.hidden_ping, layout.hidden_pong, hidden)
            &&& is_room(layout.hidden_pong, layout.kv_cache_base, hidden)
            &&& layout.kv_cache_layer_stride == ctx * (288 + 288)
            &&& is_room(
                layout.kv_cache_base,
                layout.deltanet_state_base,
                10 * (ctx * (288 + 288)),
            )
            &&& is_room(
                layout.deltanet_state_base,
                layout.snapshot_base,
                30int * 16 * 32 * 128 * 128 * 4,
            )
            &&& is_room(layout.snapshot_base, layout.scratch_base, hidden)
            &&& layout.weights_size == layout.hidden_ping - layout.weights_base
            &&& layout.hidden_size == layout.hidden_pong - layout.hidden_ping
            &&& layout.kv_cache_size == layout.deltanet_state_base - layout.kv_cache_base
            &&& layout.deltanet_state_size == layout.snapshot_base - layout.deltanet_state_base
        }),
{
    let ctx = cfg.context_length as int;
    let emb = cfg.embedding_length as int;
    assert(memory::region_start(cfg, weights_size, 0) == 64);
    lemma_room(cfg, weights_size, 0);
    lemma_room(cfg, weights_size, 1);
    lemma_room(cfg, weights_size, 2);
    lemma_room(cfg, weights_size, 3);
    lemma_room(cfg, weights_size, 4);
    lemma_room(cfg, weights_size, 5);
    assert(ctx * emb * 2 == 2 * (ctx * emb));
}

/// Behind the states lie the inner layer of the whole context; three hidden
/// states, or 4128 numbers where that is more, for a batch of 8192 tokens at
/// most; a score for every expert and token; and for every token of a batch nine
/// routed experts with their weights, and nine more places and weights. A token
/// on its own has room for nine weights and 27 addresses. There the arena ends.
pub proof fn law_layout_of_batches(layout: ArenaLayout, cfg: ModelConfig, weights_size: u64)
    requires
        layout.is_for(cfg, weights_size),
    ensures
        ({
            let ctx = cfg.context_length as int;
            let b = if ctx <= 8192 {
                ctx
            } else {
                8192
            };
            let wide = if 3 * cfg.embedding_length >= 4128 {
                3 * cfg.embedding_length
            } else {
                4128
            };
            &&& is_room(
                layout.scratch_base,
                layout.temp_base,
                2 * (ctx * cfg.feed_forward_length),
            )
            &&& is_room(layout.temp_base, layout.routing_logits_base, 2 * (b * wide))
            &&& is_room(
                layout.routing_logits_base,
                layout.routing_topk_base,
                2 * (ctx * cfg.expert_count),
            )
            &&& is_room(layout.routing_topk_base, layout.routing_token_base, b * (9 * 8))
            &&& is_room(layout.routing_token_base, layout.routing_weight_base, b * (9 * 2))
            &&& is_room(
                layout.routing_weight_base,
                layout.total_size,
                if b * (9 * 4) >= 9 * 4 + 27 * 8 {
                    b * (9 * 4)
                } else {
                    9int * 4 + 27 * 8
                },
            )
            &&& layout.scratch_size == layout.temp_base - layout.scratch_base
            &&& layout.temp_size == layout.routing_logits_base - layout.temp_base
            &&& layout.routing_logits_size == layout.routing_topk_base - layout.routing_logits_base
            &&& layout.routing_topk_size == layout.routing_token_base - layout.routing_topk_base
            &&& layout.routing_token_size == layout.routing_weight_base - layout.routing_token_base
            &&& layout.routing_weight_size == layout.total_size - layout.routing_weight_base
        }),
{
    let ctx = cfg.context_length as int;
    let b = memory::batch(cfg);
    let w = memory::max(cfg.embedding_length as int * 3, 4128);
    lemma_room(cfg, weights_size, 6);
    lemma_room(cfg, weights_size, 7);
    lemma_room(cfg, weights_size, 8);
    lemma_room(cfg, weights_size, 9);
    lemma_room(cfg, weights_size, 10);
    lemma_room(cfg, weights_size, 11);
    assert(ctx * cfg.feed_forward_length * 2 == 2 * (ctx * cfg.feed_forward_length));
    assert(b * w * 2 == 2 * (b * w));
    assert(ctx * cfg.expert_count * 2 == 2 * (ctx * cfg.expert_count));
}

/// The known tensors come in this order: the embedding, eleven tensors of each
/// of forty layers, and then of each of 256 experts of each layer the first,
/// the second and the third.
pub proof fn law_known_tensors_in_order(layer: nat, expert: nat)
    requires
        layer < 40,
        expert < 256,
    ensures
        ({
            let known = memory::load_order();
            let blk = "blk."@ + text::decimal(layer);
            let own = blk + ".experts."@ + text::decimal(expert);
            let d = 1int + 11 * layer;
            let e = 441int + 256 * layer + expert;
            &&& known.len() == 1 + 40 * 11 + 3 * 40 * 256
            &&& known[0] == "token_embd.weight"@
            &&& known[d] == blk + ".attn_norm.weight"@
            &&& known[d + 1] == blk + ".ffn_norm.weight"@
            &&& known[d + 2] == blk + ".attn_q.weight"@
            &&& known[d + 3] == blk + ".attn_k.weight"@
            &&& known[d + 4] == blk + ".attn_v.weight"@
            &&& known[d + 5] == blk + ".attn_gate.weight"@
            &&& known[d + 6] == blk + ".attn_output.weight"@
            &&& known[d + 7] == blk + ".ffn_gate.weight"@
            &&& known[d + 8] == blk + ".shared_expert.w1.weight"@
            &&& known[d + 9] == blk + ".shared_expert.w2.weight"@
            &&& known[d + 10] == blk + ".shared_expert.w3.weight"@
            &&& known[e] == own + ".w1.weight"@
            &&& known[e + 10240] == own + ".w2.weight"@
            &&& known[e + 20480] == own + ".w3.weight"@
        }),
{
    let known = memory::load_order();
    assert forall|j: int| 0 <= j < 11 implies #[trigger] known[1 + 11 * layer + j]
        == memory::layer_key(layer, memory::dense_suffixes()[j]) by {
        assert((11 * layer + j) / 11 == layer && (11 * layer + j) % 11 == j);
    }
    assert(known[1int + 11 * layer + 0] == memory::layer_key(layer, memory::dense_suffixes()[0]));
    let i = 256 * layer + expert;
    assert(i / 256 == layer && i % 256 == expert);
}

/// At `at` in the arena stands what was stored for the tensor.
pub open spec fn holds(
    arena: Seq<u8>,
    at: u64,
    data: Seq<u8>,
    data_offset: u64,
    t: TensorInfo,
    convert: bool,
) -> bool {
    let b = memory::stored(data, data_offset, t, convert);
    at + b.len() <= arena.len() && arena.subrange(at as int, at + b.len()) == b
}

/// What is found under the name of a tensor leads to its bytes.
proof fn lemma_holds(
    data: Seq<u8>,
    data_offset: u64,
    ts: Seq<TensorInfo>,
    base: u64,
    entries: Seq<TensorEntry>,
    arena: Seq<u8>,
    convert: bool,
    k: int,
)
    requires
        memory::place_all(ts, base as int).off <= u64::MAX,
        memory::is_sorted_by_hash(memory::place_all(ts, base as int).entries, entries),
        memory::hashes_differ(ts),
        forall|i: int|
            0 <= i < ts.len() ==> memory::can_load(
                data,
                data_offset,
                #[trigger] ts[i],
                entries,
                arena.len() as int,
            ),
        0 <= k < ts.len(),
    ensures
        holds(
            memory::loaded(data, data_offset, ts, entries, arena, convert, ts.len()),
            memory::offset_under(entries, ts[k].name@),
            data,
            data_offset,
            ts[k],
            convert,
        ),
{
    memory::law_weights_read_back(data, data_offset, ts, base, entries, arena, convert, k);
    memory::law_tensors_are_found(ts, base, entries, ts[k].name@);
    memory::lemma_stored_length(data, data_offset, ts[k], convert);
    memory::lemma_loaded_length(data, data_offset, ts, entries, arena, convert, ts.len());
    assert(memory::can_load(data, data_offset, ts[k], entries, arena.len() as int));
}

/// The tables of a layer lead to its tensors: where a table names a place for a
/// layer, the loaded arena holds there what was stored for the tensor whose name
/// has the layer's number and the table's word. The embedding's place leads to
/// the embedding.
pub proof fn law_tables_lead_to_tensors(
    w: LayerWeights,
    cfg: ModelConfig,
    data: Seq<u8>,
    data_offset: u64,
    ts: Seq<TensorInfo>,
    base: u64,
    entries: Seq<TensorEntry>,
    arena: Seq<u8>,
    convert: bool,
    k: int,
    layer: int,
)
    requires
        memory::place_all(ts, base as int).off <= u64::MAX,
        memory::is_sorted_by_hash(memory::place_all(ts, base as int).entries, entries),
        memory::hashes_differ(ts),
        forall|i: int|
            0 <= i < ts.len() ==> memory::can_load(
                data,
                data_offset,
                #[trigger] ts[i],
                entries,
                arena.len() as int,
            ),
        w.is_from(entries, cfg),
        0 <= k < ts.len(),
        0 <= layer < cfg.block_count,
    ensures
        ({
            let after = memory::loaded(data, data_offset, ts, entries, arena, convert, ts.len());
            let name = ts[k].name@;
            let blk = "blk."@ + text::decimal(layer as nat);
            let found = |at: u64| holds(after, at, data, data_offset, ts[k], convert);
            &&& name == "token_embd.weight"@ ==> found(w.embedding)
            &&& name == blk + ".attn_q.weight"@ ==> found(w.attn_q@[layer])
            &&& name == blk + ".attn_k.weight"@ ==> found(w.attn_k@[layer])
            &&& name == blk + ".attn_v.weight"@ ==> found(w.attn_v@[layer])
            &&& name == blk + ".attn_output.weight"@ ==> found(w.attn_output@[layer])
            &&& name == blk + ".attn_gate.weight"@ ==> found(w.attn_gate@[layer])
            &&& name == blk + ".attn_norm.weight"@ ==> found(w.attn_norm@[layer])
            &&& name == blk + ".ffn_norm.weight"@ ==> found(w.ffn_norm@[layer])
            &&& name == blk + ".ffn_gate.weight"@ ==> found(w.ffn_gate@[layer])
            &&& name == blk + ".shared_expert.w1.weight"@ ==> found(w.shared_w1@[layer])
            &&& name == blk + ".shared_expert.w2.weight"@ ==> found(w.shared_w2@[layer])
            &&& name == blk + ".shared_expert.w3.weight"@ ==> found(w.shared_w3@[layer])
        }),
{
    lemma_holds(data, data_offset, ts, base, entries, arena, convert, k);
}

/// The tables of the experts lead to their tensors: at the layer's number times
/// the number of experts, plus the expert, a table names the place where the
/// loaded arena holds the tensor of that layer and expert.
pub proof fn law_tables_lead_to_experts(
    w: LayerWeights,
    cfg: ModelConfig,
    data: Seq<u8>,
    data_offset: u64,
    ts: Seq<TensorInfo>,
    base: u64,
    entries: Seq<TensorEntry>,
    arena: Seq<u8>,
    convert: bool,
    k: int,
    layer: int,
    expert: int,
)
    requires
        memory::place_all(ts, base as int).off <= u64::MAX,
        memory::is_sorted_by_hash(memory::place_all(ts, base as int).entries, entries),
        memory::hashes_differ(ts),
        forall|i: int|
            0 <= i < ts.len() ==> memory::can_load(
                data,
                data_offset,
                #[trigger] ts[i],
                entries,
                arena.len() as int,
            ),
        w.is_from(entries, cfg),
        0 <= k < ts.len(),
        0 <= layer < cfg.block_count,
        0 <= expert < cfg.expert_count,
    ensures
        ({
            let after = memory::loaded(data, data_offset, ts, entries, arena, convert, ts.len());
            let name = ts[k].name@;
            let own = "blk."@ + text::decimal(layer as nat) + ".experts."@ + text::decimal(
                expert as nat,
            );
            let at = layer * cfg.expert_count + expert;
            let found = |at: u64| holds(after, at, data, data_offset, ts[k], convert);
            &&& name == own + ".w1.weight"@ ==> found(w.expert_w1@[at])
            &&& name == own + ".w2.weight"@ ==> found(w.expert_w2@[at])
            &&& name == own + ".w3.weight"@ ==> found(w.expert_w3@[at])
        }),
{
    lemma_holds(data, data_offset, ts, base, entries, arena, convert, k);
    memory::law_expert_weights(w, entries, cfg, layer, expert);
}

/// The sizes that the kernels are given are those of the model.
pub proof fn law_tables_have_the_sizes(w: LayerWeights, entries: Seq<TensorEntry>, cfg: ModelConfig)
    requires
        w.is_from(entries, cfg),
    ensures
        w.hidden_size == cfg.embedding_length,
        w.intermediate_size == cfg.feed_forward_length,
        w.max_seq_len == cfg.context_length,
        w.num_layers == cfg.block_count,
        w.num_experts == cfg.expert_count,
        w.num_mtp_heads == 0,
        w.well_formed(),
{
}

/// A tensor is stored as it stands in the file, unless it is to be converted, is
/// in half precision and fills whole blocks of 32 numbers: then each of its
/// numbers is unpacked from blocks of 36 bytes as the level that is chosen for it.
#[verifier::rlimit(60)]
#[verifier::spinoff_prover]
pub proof fn law_tensors_are_stored(
    data: Seq<u8>,
    data_offset: u64,
    t: TensorInfo,
    convert: bool,
    k: int,
)
    requires
        data_offset + t.offset + t.size <= data.len(),
        0 <= k,
        2 * k < t.size,
    ensures
        ({
            let at = data_offset + t.offset;
            let file = data.subrange(at, at + t.size);
            let b = memory::stored(data, data_offset, t, convert);
            let packed = convert && t.ggml_type is F16 && t.size % 64 == 0;
            &&& !packed ==> b == file
            &&& packed ==> {
                let numbers = quantize::halves_of(file);
                &&& b.len() == t.size / 64 * 36
                &&& numbers[k] == bytes::u16_le(data, at + 2 * k)
                &&& reference::weight_at(b, k / 32 * 36, k % 32) == quantize::weight_of(numbers, k)
            }
        }),
{
    let at = data_offset + t.offset;
    let file = data.subrange(at, at + t.size);
    if convert && t.ggml_type is F16 && t.size % 64 == 0 {
        let numbers = quantize::halves_of(file);
        assert(numbers.len() == t.size / 2);
        assert(file[2 * k] == data[at + 2 * k] && file[2 * k + 1] == data[at + 2 * k + 1]);
        quantize::law_quantized_unpacks(numbers, k);
    }
}

/// The sizes of two lists of tensors add up, and one tensor has its own size.
pub proof fn law_sizes_add_up(a: Seq<TensorInfo>, b: Seq<TensorInfo>, t: TensorInfo)
    ensures
        memory::size_sum(a + b, (a + b).len()) == memory::size_sum(a, a.len()) + memory::size_sum(
            b,
            b.len(),
        ),
        memory::size_sum(seq![t], 1) == t.size,
{
    lemma_sizes_add_up(a, b, b.len());
    reveal_with_fuel(memory::size_sum, 2);
}

proof fn lemma_sizes_add_up(a: Seq<TensorInfo>, b: Seq<TensorInfo>, n: nat)
    requires
        n <= b.len(),
    ensures
        memory::size_sum(a + b, a.len() + n) == memory::size_sum(a, a.len()) + memory::size_sum(
            b,
            n,
        ),
    decreases n,
{
    if n > 0 {
        lemma_sizes_add_up(a, b, (n - 1) as nat);
        assert((a + b)[a.len() + n - 1] == b[n - 1]);
    } else {
        lemma_same_sizes(a, b, a.len());
    }
}

proof fn lemma_same_sizes(a: Seq<TensorInfo>, b: Seq<TensorInfo>, n: nat)
    requires
        n <= a.len(),
    ensures
        memory::size_sum(a + b, n) == memory::size_sum(a, n),
    decreases n,
{
    if n > 0 {
        lemma_same_sizes(a, b, (n - 1) as nat);
        assert((a + b)[n - 1] == a[n - 1]);
    }
}

/// The name of a tensor tells its block and, for an expert's, the expert, and
/// ends with what the tensor is.
pub proof fn law_names_tell_their_place(layer: nat, expert: nat, suffix: Seq<char>)
    ensures
        ({
            let n = memory::layer_key(layer, suffix);
            let d = text::decimal(layer);
            &&& n.len() == 4 + d.len() + suffix.len()
            &&& text::stands_at(n, 0, "blk."@ + d)
            &&& text::stands_at(n, 4 + d.len() as int, suffix)
        }),
        ({
            let n = memory::expert_key(layer, expert, suffix);
            let d = text::decimal(layer);
            let e = text::decimal(expert);
            &&& n.len() == 13 + d.len() + e.len() + suffix.len()
            &&& text::stands_at(n, 0, "blk."@ + d + ".experts."@ + e)
            &&& text::stands_at(n, 13 + d.len() + e.len() as int, suffix)
        }),
{
    reveal_strlit("blk.");
    reveal_strlit(".experts.");
    let d = text::decimal(layer);
    let e = text::decimal(expert);
    let a = memory::layer_key(layer, suffix);
    let b = memory::expert_key(layer, expert, suffix);
    let p = "blk."@ + d;
    let q = "blk."@ + d + ".experts."@ + e;
    assert(a.subrange(0, p.len() as int) =~= p);
    assert(a.subrange(p.len() as int, a.len() as int) =~= suffix);
    assert(b.subrange(0, q.len() as int) =~= q);
    assert(b.subrange(q.len() as int, b.len() as int) =~= suffix);
}

} // verus!
