//! The arena: regions of one block of memory that host and device share, and
//! the weights in it.

use std::collections::HashSet;

use vstd::prelude::*;

use crate::align;
use crate::gguf;
use crate::gguf::{GgmlType, ModelConfig, TensorInfo};
use crate::quantize;
use crate::sort;
use crate::text;

verus! {

/// Cache line size; every region and every tensor starts at a multiple of it.
pub const ALIGN: u64 = 64;

/// Layers with an attention cache.
pub const KV_LAYERS: u64 = 10;

/// Bytes of keys and values of one token in one layer: 16 blocks of 18 bytes each.
pub const KV_TOKEN_BYTES: u64 = 576;

/// Bytes of the recurrent state: 30 layers, 16 by 32 heads, 128 by 128 numbers.
pub const DELTANET_BYTES: u64 = 1_006_632_960;

/// Tokens that a prefill batch can hold.
pub const MAX_BATCH: u64 = 8192;

/// Bytes of the routing of one token: nine entries of eight bytes.
pub const TOPK_TOKEN_BYTES: u64 = 72;

/// Bytes that the routing of a single token takes in the weight region: nine
/// weights and nine times three offsets.
pub const SINGLE_TOKEN_BYTES: u64 = 252;

/// All arena region offsets, computed from `ModelConfig`.
/// All values in bytes. All regions aligned to 64 bytes; offset 0 is no region.
#[derive(Debug, Clone, Copy, PartialEq, Eq, Structural)]
pub struct ArenaLayout {
    pub weights_base: u64,
    pub weights_size: u64,
    pub hidden_ping: u64,
    pub hidden_pong: u64,
    /// Size of each of the two hidden-state buffers.
    pub hidden_size: u64,
    pub kv_cache_base: u64,
    pub kv_cache_size: u64,
    /// Bytes of one layer's cache.
    pub kv_cache_layer_stride: u64,
    pub deltanet_state_base: u64,
    pub deltanet_state_size: u64,
    pub snapshot_base: u64,
    /// Experts' scratch.
    pub scratch_base: u64,
    pub scratch_size: u64,
    /// Projections and attention output of a layer.
    pub temp_base: u64,
    pub temp_size: u64,
    pub routing_logits_base: u64,
    pub routing_logits_size: u64,
    pub routing_topk_base: u64,
    pub routing_topk_size: u64,
    pub routing_token_base: u64,
    pub routing_token_size: u64,
    pub routing_weight_base: u64,
    pub routing_weight_size: u64,
    pub total_size: u64,
}

/// `x` rounded up to the cache line size.
#[verifier::opaque]
pub open spec fn lines(x: int) -> int {
    align::round_up(x, ALIGN as int)
}

pub open spec fn min(a: int, b: int) -> int {
    if a < b {
        a
    } else {
        b
    }
}

pub open spec fn max(a: int, b: int) -> int {
    if a < b {
        b
    } else {
        a
    }
}

/// Tokens in a prefill batch.
pub open spec fn batch(cfg: ModelConfig) -> int {
    min(cfg.context_length as int, MAX_BATCH as int)
}

/// Bytes that each region needs, in the order of the regions: weights, hidden
/// state twice, cache, recurrent state, snapshot, scratch, temporaries, routing
/// logits, routed experts, tokens by expert, weights by expert.
pub open spec fn region_needs(cfg: ModelConfig, weights_size: u64) -> Seq<int> {
    let ctx = cfg.context_length as int;
    let emb = cfg.embedding_length as int;
    seq![
        weights_size as int,
        ctx * emb * 2,
        ctx * emb * 2,
        KV_LAYERS * (ctx * KV_TOKEN_BYTES),
        DELTANET_BYTES as int,
        ctx * emb * 2,
        ctx * cfg.feed_forward_length * 2,
        batch(cfg) * max(emb * 3, 4128) * 2,
        ctx * cfg.expert_count * 2,
        batch(cfg) * TOPK_TOKEN_BYTES,
        batch(cfg) * 18,
        max(batch(cfg) * 36, SINGLE_TOKEN_BYTES as int),
    ]
}

/// Where region `k` starts; behind the last one, the arena's size.
pub open spec fn region_start(cfg: ModelConfig, weights_size: u64, k: nat) -> int
    decreases k,
{
    if k == 0 {
        ALIGN as int
    } else {
        region_start(cfg, weights_size, (k - 1) as nat) + lines(
            region_needs(cfg, weights_size)[k - 1],
        )
    }
}

/// Every region can be addressed with 64 bits.
pub open spec fn layout_fits(cfg: ModelConfig, weights_size: u64) -> bool {
    region_start(cfg, weights_size, 12) <= u64::MAX
}

impl ArenaLayout {
    /// The layout has the regions of this model.
    pub open spec fn is_for(&self, cfg: ModelConfig, weights_size: u64) -> bool {
        let needs = region_needs(cfg, weights_size);
        &&& self.weights_base == region_start(cfg, weights_size, 0)
        &&& self.weights_size == lines(needs[0])
        &&& self.hidden_ping == region_start(cfg, weights_size, 1)
        &&& self.hidden_pong == region_start(cfg, weights_size, 2)
        &&& self.hidden_size == lines(needs[1])
        &&& self.kv_cache_base == region_start(cfg, weights_size, 3)
        &&& self.kv_cache_size == lines(needs[3])
        &&& self.kv_cache_layer_stride == cfg.context_length * KV_TOKEN_BYTES
        &&& self.deltanet_state_base == region_start(cfg, weights_size, 4)
        &&& self.deltanet_state_size == lines(needs[4])
        &&& self.snapshot_base == region_start(cfg, weights_size, 5)
        &&& self.scratch_base == region_start(cfg, weights_size, 6)
        &&& self.scratch_size == lines(needs[6])
        &&& self.temp_base == region_start(cfg, weights_size, 7)
        &&& self.temp_size == lines(needs[7])
        &&& self.routing_logits_base == region_start(cfg, weights_size, 8)
        &&& self.routing_logits_size == lines(needs[8])
        &&& self.routing_topk_base == region_start(cfg, weights_size, 9)
        &&& self.routing_topk_size == lines(needs[9])
        &&& self.routing_token_base == region_start(cfg, weights_size, 10)
        &&& self.routing_token_size == lines(needs[10])
        &&& self.routing_weight_base == region_start(cfg, weights_size, 11)
        &&& self.routing_weight_size == lines(needs[11])
        &&& self.total_size == region_start(cfg, weights_size, 12)
    }

    /// Computes the layout from the model's dimensions and the bytes of its weights.
    pub fn compute(cfg: &ModelConfig, weights_size: u64) -> (r: Self)
        requires
            layout_fits(*cfg, weights_size),
        ensures
            r.is_for(*cfg, weights_size),
    {
        proof {
            lemma_needs_fit(*cfg, weights_size);
            lemma_starts(*cfg, weights_size);
            let needs = region_needs(*cfg, weights_size);
            assert(region_start(*cfg, weights_size, 1) == region_start(*cfg, weights_size, 0) + lines(
                needs[0],
            ));
            assert(region_start(*cfg, weights_size, 2) == region_start(*cfg, weights_size, 1) + lines(
                needs[1],
            ));
            assert(region_start(*cfg, weights_size, 3) == region_start(*cfg, weights_size, 2) + lines(
                needs[2],
            ));
            assert(region_start(*cfg, weights_size, 4) == region_start(*cfg, weights_size, 3) + lines(
                needs[3],
            ));
            assert(region_start(*cfg, weights_size, 5) == region_start(*cfg, weights_size, 4) + lines(
                needs[4],
            ));
            assert(region_start(*cfg, weights_size, 6) == region_start(*cfg, weights_size, 5) + lines(
                needs[5],
            ));
            assert(region_start(*cfg, weights_size, 7) == region_start(*cfg, weights_size, 6) + lines(
                needs[6],
            ));
            assert(region_start(*cfg, weights_size, 8) == region_start(*cfg, weights_size, 7) + lines(
                needs[7],
            ));
            assert(region_start(*cfg, weights_size, 9) == region_start(*cfg, weights_size, 8) + lines(
                needs[8],
            ));
            assert(region_start(*cfg, weights_size, 10) == region_start(*cfg, weights_size, 9) + lines(
                needs[9],
            ));
            assert(region_start(*cfg, weights_size, 11) == region_start(*cfg, weights_size, 10) + lines(
                needs[10],
            ));
            assert(region_start(*cfg, weights_size, 12) == region_start(*cfg, weights_size, 11) + lines(
                needs[11],
            ));
            assert(region_start(*cfg, weights_size, 0) == ALIGN);
        }
        let ctx: u64 = cfg.context_length as u64;
        let emb: u64 = cfg.embedding_length as u64;
        let batch: u64 = if ctx < MAX_BATCH {
            ctx
        } else {
            MAX_BATCH
        };
        let wide: u64 = if emb * 3 < 4128 {
            4128
        } else {
            emb * 3
        };
        let weights_base: u64 = ALIGN;
        let weights_region: u64 = align(weights_size);
        // Ping-pong buffers, sized for a prefill of the whole context.
        let hidden_ping: u64 = weights_base + weights_region;
        let hidden_size: u64 = align(ctx * emb * 2);
        let hidden_pong: u64 = hidden_ping + hidden_size;
        let kv_cache_base: u64 = hidden_pong + hidden_size;
        let kv_cache_layer_stride: u64 = ctx * KV_TOKEN_BYTES;
        let kv_cache_size: u64 = align(KV_LAYERS * kv_cache_layer_stride);
        let deltanet_state_base: u64 = kv_cache_base + kv_cache_size;
        let deltanet_state_size: u64 = align(DELTANET_BYTES);
        let snapshot_base: u64 = deltanet_state_base + deltanet_state_size;
        let scratch_base: u64 = snapshot_base + hidden_size;
        let scratch_size: u64 = align(ctx * cfg.feed_forward_length as u64 * 2);
        let temp_base: u64 = scratch_base + scratch_size;
        let temp_size: u64 = align(batch * wide * 2);
        let routing_logits_base: u64 = temp_base + temp_size;
        let routing_logits_size: u64 = align(ctx * cfg.expert_count as u64 * 2);
        let routing_topk_base: u64 = routing_logits_base + routing_logits_size;
        let routing_topk_size: u64 = align(batch * TOPK_TOKEN_BYTES);
        let routing_token_base: u64 = routing_topk_base + routing_topk_size;
        let routing_token_size: u64 = align(batch * 18);
        let routing_weight_base: u64 = routing_token_base + routing_token_size;
        let routing_weight_size: u64 = align(
            if batch * 36 < SINGLE_TOKEN_BYTES {
                SINGLE_TOKEN_BYTES
            } else {
                batch * 36
            },
        );
        let total_size: u64 = routing_weight_base + routing_weight_size;
        ArenaLayout {
            weights_base,
            weights_size: weights_region,
            hidden_ping,
            hidden_pong,
            hidden_size,
            kv_cache_base,
            kv_cache_size,
            kv_cache_layer_stride,
            deltanet_state_base,
            deltanet_state_size,
            snapshot_base,
            scratch_base,
            scratch_size,
            temp_base,
            temp_size,
            routing_logits_base,
            routing_logits_size,
            routing_topk_base,
            routing_topk_size,
            routing_token_base,
            routing_token_size,
            routing_weight_base,
            routing_weight_size,
            total_size,
        }
    }
}

/// A multiple of 64, at least `x` and less than 64 above it.
pub proof fn lemma_lines(x: int)
    ensures
        x <= lines(x) < x + 64,
        lines(x) % 64 == 0,
{
    reveal(lines);
    align::lemma_round_up(x, ALIGN as int);
}

/// No region needs less than nothing.
proof fn lemma_needs_positive(cfg: ModelConfig, weights_size: u64, i: int)
    requires
        0 <= i < 12,
    ensures
        0 <= region_needs(cfg, weights_size)[i] <= lines(region_needs(cfg, weights_size)[i]),
{
    let ctx = cfg.context_length as int;
    let emb = cfg.embedding_length as int;
    assert(0 <= ctx * emb) by (nonlinear_arith)
        requires
            0 <= ctx,
            0 <= emb,
    ;
    assert(0 <= ctx * cfg.feed_forward_length) by (nonlinear_arith)
        requires
            0 <= ctx,
    ;
    assert(0 <= ctx * cfg.expert_count) by (nonlinear_arith)
        requires
            0 <= ctx,
    ;
    let b = batch(cfg);
    let w = max(emb * 3, 4128);
    assert(0 <= b * w) by (nonlinear_arith)
        requires
            0 <= b,
            0 <= w,
    ;
    lemma_lines(region_needs(cfg, weights_size)[i]);
}

/// Regions start in order, at multiples of the cache line size.
proof fn lemma_start_grows(cfg: ModelConfig, weights_size: u64, j: nat, k: nat)
    requires
        j <= k <= 12,
    ensures
        ALIGN <= region_start(cfg, weights_size, j) <= region_start(cfg, weights_size, k),
        region_start(cfg, weights_size, k) % ALIGN as int == 0,
        j < k ==> region_start(cfg, weights_size, j) + lines(
            region_needs(cfg, weights_size)[j as int],
        ) <= region_start(cfg, weights_size, k),
    decreases k,
{
    if k > 0 {
        let need = region_needs(cfg, weights_size)[k - 1];
        lemma_needs_positive(cfg, weights_size, k - 1);
        lemma_lines(need);
        if j < k {
            lemma_start_grows(cfg, weights_size, j, (k - 1) as nat);
        } else {
            lemma_start_grows(cfg, weights_size, (k - 1) as nat, (k - 1) as nat);
        }
        let a = region_start(cfg, weights_size, (k - 1) as nat);
        let b = lines(need);
        assert((a + b) % 64 == 0) by {
            assert(a % 64 == 0 && b % 64 == 0);
        }
    }
}

/// Every need is at most the arena's size.
proof fn lemma_needs_fit(cfg: ModelConfig, weights_size: u64)
    requires
        layout_fits(cfg, weights_size),
    ensures
        forall|i: int|
            0 <= i < 12 ==> 0 <= #[trigger] region_needs(cfg, weights_size)[i] <= u64::MAX - 64,
{
    assert forall|i: int| 0 <= i < 12 implies 0 <= #[trigger] region_needs(cfg, weights_size)[i]
        <= u64::MAX - 64 by {
        lemma_needs_positive(cfg, weights_size, i);
        lemma_start_grows(cfg, weights_size, i as nat, 12);
        lemma_start_grows(cfg, weights_size, i as nat, i as nat);
    }
}

/// The starts of all regions, one by one.
proof fn lemma_starts(cfg: ModelConfig, weights_size: u64)
    requires
        layout_fits(cfg, weights_size),
    ensures
        forall|k: nat|
            k < 12 ==> #[trigger] region_start(cfg, weights_size, k) + lines(
                region_needs(cfg, weights_size)[k as int],
            ) == region_start(cfg, weights_size, k + 1),
        forall|k: nat| k <= 12 ==> #[trigger] region_start(cfg, weights_size, k) <= u64::MAX,
{
    assert forall|k: nat| k <= 12 implies #[trigger] region_start(cfg, weights_size, k)
        <= u64::MAX by {
        lemma_start_grows(cfg, weights_size, k, 12);
    }
    assert forall|k: nat| k < 12 implies #[trigger] region_start(cfg, weights_size, k) + lines(
        region_needs(cfg, weights_size)[k as int],
    ) == region_start(cfg, weights_size, k + 1) by {
        let m: nat = k + 1;
        assert((m - 1) as nat == k);
    }
}

/// `x` rounded up to the cache line size.
fn align(x: u64) -> (r: u64)
    requires
        x <= u64::MAX - 64,
    ensures
        r == lines(x as int),
{
    proof {
        reveal(lines);
        assert(align::is_power_of_two(ALIGN)) by {
            assert(64u64 & 63u64 == 0) by (bit_vector);
        }
    }
    align::align_up(x, ALIGN)
}

/// Every region starts at a multiple of 64 bytes, behind the first 64, and ends
/// before the next one starts and within the arena.
pub proof fn law_regions_are_apart(cfg: ModelConfig, weights_size: u64, j: nat, k: nat)
    requires
        j < k < 12,
    ensures
        64 <= region_start(cfg, weights_size, j),
        region_start(cfg, weights_size, j) % 64 == 0,
        region_start(cfg, weights_size, j) + region_needs(cfg, weights_size)[j as int]
            <= region_start(cfg, weights_size, k),
        region_start(cfg, weights_size, k) + region_needs(cfg, weights_size)[k as int]
            <= region_start(cfg, weights_size, 12),
{
    lemma_start_grows(cfg, weights_size, j, j);
    lemma_start_grows(cfg, weights_size, j, k);
    lemma_start_grows(cfg, weights_size, k, 12);
    lemma_needs_positive(cfg, weights_size, j as int);
    lemma_needs_positive(cfg, weights_size, k as int);
}

/// The caches of the ten attention layers lie one behind the other in the
/// cache region.
pub proof fn law_layer_caches_fit(layout: ArenaLayout, cfg: ModelConfig, weights_size: u64, i: int)
    requires
        layout.is_for(cfg, weights_size),
        0 <= i < 10,
    ensures
        layout.kv_cache_base + i * layout.kv_cache_layer_stride + layout.kv_cache_layer_stride
            <= layout.kv_cache_base + layout.kv_cache_size,
{
    let s = layout.kv_cache_layer_stride as int;
    assert(i * s + s <= 10 * s) by (nonlinear_arith)
        requires
            0 <= i < 10,
            0 <= s,
    ;
    lemma_needs_positive(cfg, weights_size, 3);
}

pub const FNV_OFFSET: u64 = 14695981039346656037;

pub const FNV_PRIME: u64 = 1099511628211;

/// FNV-1a hash (64-bit) of a byte sequence.
pub open spec fn fnv(s: Seq<u8>) -> u64
    decreases s.len(),
{
    if s.len() == 0 {
        FNV_OFFSET
    } else {
        (fnv(s.drop_last()) ^ (s.last() as u64)).wrapping_mul(FNV_PRIME)
    }
}

/// The hash of a name: of its UTF-8 bytes.
pub open spec fn name_hash(name: Seq<char>) -> u64 {
    fnv(vstd::utf8::encode_utf8(name))
}

/// FNV-1a hash (64-bit).
pub fn fnv1a(bytes: &[u8]) -> (r: u64)
    ensures
        r == fnv(bytes@),
{
    let mut hash: u64 = FNV_OFFSET;
    let mut i: usize = 0;
    assert(bytes@.take(0) =~= Seq::empty());
    while i < bytes.len()
        invariant
            i <= bytes@.len(),
            hash == fnv(bytes@.take(i as int)),
        decreases bytes.len() - i,
    {
        assert(bytes@.take(i + 1).drop_last() =~= bytes@.take(i as int));
        hash = (hash ^ (bytes[i] as u64)).wrapping_mul(FNV_PRIME);
        i = i + 1;
    }
    assert(bytes@.take(i as int) =~= bytes@);
    hash
}

fn hash_of(name: &str) -> (r: u64)
    ensures
        r == name_hash(name@),
{
    fnv1a(name.as_bytes())
}

/// A tensor's place in the arena, under the hash of its name.
#[derive(Debug, Clone, Copy, PartialEq, Eq, Structural)]
pub struct TensorEntry {
    pub name_hash: u64,
    pub arena_offset: u64,
    pub size: u64,
    pub ggml_type: u32,
}

/// Layers whose tensors have a place of their own in the loading order.
pub const MAX_LAYER: usize = 40;

/// Experts whose tensors have a place of their own in the loading order.
pub const MAX_EXPERT: usize = 256;

/// The tensor of a layer.
pub open spec fn layer_key(layer: nat, suffix: Seq<char>) -> Seq<char> {
    "blk."@ + text::decimal(layer) + suffix
}

/// The tensor of an expert.
pub open spec fn expert_key(layer: nat, expert: nat, suffix: Seq<char>) -> Seq<char> {
    "blk."@ + text::decimal(layer) + ".experts."@ + text::decimal(expert) + suffix
}

/// The dense tensors of a layer, in loading order.
pub open spec fn dense_suffixes() -> Seq<Seq<char>> {
    seq![
        ".attn_norm.weight"@,
        ".ffn_norm.weight"@,
        ".attn_q.weight"@,
        ".attn_k.weight"@,
        ".attn_v.weight"@,
        ".attn_gate.weight"@,
        ".attn_output.weight"@,
        ".ffn_gate.weight"@,
        ".shared_expert.w1.weight"@,
        ".shared_expert.w2.weight"@,
        ".shared_expert.w3.weight"@,
    ]
}

/// The dense tensors, layer by layer.
pub open spec fn dense_names() -> Seq<Seq<char>> {
    Seq::new(440, |i: int| layer_key((i / 11) as nat, dense_suffixes()[i % 11]))
}

/// One tensor of every expert, layer by layer.
pub open spec fn expert_names(suffix: Seq<char>) -> Seq<Seq<char>> {
    Seq::new(10240, |i: int| expert_key((i / 256) as nat, (i % 256) as nat, suffix))
}

/// The loading order of the known tensors: the embedding, which every token
/// needs, then the dense tensors, then the experts' three arrays.
pub open spec fn load_order() -> Seq<Seq<char>> {
    seq!["token_embd.weight"@] + dense_names() + expert_names(".w1.weight"@) + expert_names(
        ".w2.weight"@,
    ) + expert_names(".w3.weight"@)
}

fn layer_name(layer: u64, suffix: &str) -> (r: String)
    ensures
        r@ == layer_key(layer as nat, suffix@),
{
    let mut s: String = "blk.".to_owned();
    text::push_decimal(&mut s, layer);
    s.append(suffix);
    s
}

fn expert_name(layer: u64, expert: u64, suffix: &str) -> (r: String)
    ensures
        r@ == expert_key(layer as nat, expert as nat, suffix@),
{
    let mut s: String = "blk.".to_owned();
    text::push_decimal(&mut s, layer);
    s.append(".experts.");
    text::push_decimal(&mut s, expert);
    s.append(suffix);
    s
}

/// The texts of a list of names.
pub open spec fn name_views(names: Seq<String>) -> Seq<Seq<char>> {
    names.map_values(|n: String| n@)
}

fn push_expert_names(out: &mut Vec<String>, suffix: &str)
    ensures
        name_views(final(out)@) == name_views(old(out)@) + expert_names(suffix@),
{
    let ghost start = name_views(out@);
    let all: usize = MAX_LAYER * MAX_EXPERT;
    let mut i: usize = 0;
    while i < all
        invariant
            i <= all,
            all == 10240,
            name_views(out@) == start + expert_names(suffix@).take(i as int),
        decreases all - i,
    {
        let ghost before = out@;
        let name: String = expert_name((i / 256) as u64, (i % 256) as u64, suffix);
        out.push(name);
        assert(name_views(out@) =~= name_views(before).push(name@));
        assert(expert_names(suffix@).take(i + 1) =~= expert_names(suffix@).take(i as int).push(
            name@,
        ));
        i = i + 1;
        assert(name_views(out@) =~= start + expert_names(suffix@).take(i as int));
    }
    assert(expert_names(suffix@).take(i as int) =~= expert_names(suffix@));
}

/// The known tensors in loading order.
pub fn known_names() -> (r: Vec<String>)
    ensures
        name_views(r@) == load_order(),
{
    let suffixes: Vec<&'static str> = vec![
        ".attn_norm.weight",
        ".ffn_norm.weight",
        ".attn_q.weight",
        ".attn_k.weight",
        ".attn_v.weight",
        ".attn_gate.weight",
        ".attn_output.weight",
        ".ffn_gate.weight",
        ".shared_expert.w1.weight",
        ".shared_expert.w2.weight",
        ".shared_expert.w3.weight",
    ];
    let mut out: Vec<String> = vec!["token_embd.weight".to_owned()];
    let ghost start = seq!["token_embd.weight"@];
    assert(name_views(out@) =~= start);
    let all: usize = MAX_LAYER * 11;
    let mut i: usize = 0;
    while i < all
        invariant
            i <= all,
            all == 440,
            suffixes@.len() == 11,
            forall|j: int| 0 <= j < 11 ==> (#[trigger] suffixes@[j])@ == dense_suffixes()[j],
            name_views(out@) == start + dense_names().take(i as int),
        decreases all - i,
    {
        let ghost before = out@;
        assert(suffixes@[i as int % 11]@ == dense_suffixes()[i as int % 11]);
        let name: String = layer_name((i / 11) as u64, suffixes[i % 11]);
        out.push(name);
        assert(name_views(out@) =~= name_views(before).push(name@));
        assert(dense_names().take(i + 1) =~= dense_names().take(i as int).push(name@));
        i = i + 1;
        assert(name_views(out@) =~= start + dense_names().take(i as int));
    }
    assert(dense_names().take(i as int) =~= dense_names());
    push_expert_names(&mut out, ".w1.weight");
    push_expert_names(&mut out, ".w2.weight");
    push_expert_names(&mut out, ".w3.weight");
    out
}

/// Entries placed so far, and the offset behind the last one.
pub struct Placing {
    pub entries: Seq<TensorEntry>,
    pub off: int,
}

/// The last tensor of this name.
pub open spec fn last_named(ts: Seq<TensorInfo>, name: Seq<char>) -> Option<int>
    decreases ts.len(),
{
    if ts.len() == 0 {
        None
    } else if ts.last().name@ == name {
        Some(ts.len() - 1)
    } else {
        last_named(ts.drop_last(), name)
    }
}

/// One tensor more, at the next cache line, under this hash.
pub open spec fn placed(p: Placing, t: TensorInfo, hash: u64) -> Placing {
    let start = lines(p.off);
    Placing {
        entries: p.entries.push(
            TensorEntry {
                name_hash: hash,
                arena_offset: start as u64,
                size: t.size,
                ggml_type: t.ggml_type.code(),
            },
        ),
        off: start + t.size,
    }
}

/// The named tensors, as far as there are any, in the order of the names.
pub open spec fn place_named(ts: Seq<TensorInfo>, base: int, names: Seq<Seq<char>>) -> Placing
    decreases names.len(),
{
    if names.len() == 0 {
        Placing { entries: Seq::empty(), off: base }
    } else {
        let p = place_named(ts, base, names.drop_last());
        match last_named(ts, names.last()) {
            Some(i) => placed(p, ts[i], name_hash(names.last())),
            None => p,
        }
    }
}

/// Some entry has this hash.
pub open spec fn has_hash(entries: Seq<TensorEntry>, hash: u64) -> bool {
    exists|i: int| 0 <= i < entries.len() && (#[trigger] entries[i]).name_hash == hash
}

/// The first `n` tensors, in their own order, on top of `first`, but for those
/// whose hash `first` has.
pub open spec fn place_rest(ts: Seq<TensorInfo>, first: Placing, n: nat) -> Placing
    decreases n,
{
    if n == 0 {
        first
    } else {
        let p = place_rest(ts, first, (n - 1) as nat);
        let hash = name_hash(ts[n - 1].name@);
        if has_hash(first.entries, hash) {
            p
        } else {
            placed(p, ts[n - 1], hash)
        }
    }
}

/// All tensors: the known ones in loading order, then the others.
pub open spec fn place_all(ts: Seq<TensorInfo>, base: int) -> Placing {
    place_rest(ts, place_named(ts, base, load_order()), ts.len())
}

/// Every entry starts at a cache line behind `base`, and entries follow each
/// other up to `off`.
pub open spec fn is_packed(p: Placing, base: int) -> bool {
    &&& base <= p.off
    &&& forall|i: int|
        0 <= i < p.entries.len() ==> {
            &&& base <= (#[trigger] p.entries[i]).arena_offset
            &&& p.entries[i].arena_offset % 64 == 0
            &&& p.entries[i].arena_offset + p.entries[i].size <= p.off
        }
    &&& forall|i: int, j: int|
        0 <= i < j < p.entries.len() ==> (#[trigger] p.entries[i]).arena_offset + p.entries[i].size
            <= (#[trigger] p.entries[j]).arena_offset
}

proof fn lemma_placed_is_packed(p: Placing, base: int, t: TensorInfo, hash: u64)
    requires
        is_packed(p, base),
        0 <= base,
        placed(p, t, hash).off <= u64::MAX,
    ensures
        is_packed(placed(p, t, hash), base),
{
    lemma_lines(p.off);
}

proof fn lemma_named_grows(ts: Seq<TensorInfo>, base: int, names: Seq<Seq<char>>, k: int, n: int)
    requires
        0 <= k <= n <= names.len(),
    ensures
        place_named(ts, base, names.take(k)).off <= place_named(ts, base, names.take(n)).off,
    decreases n,
{
    if k < n {
        lemma_named_grows(ts, base, names, k, n - 1);
        assert(names.take(n).drop_last() =~= names.take(n - 1));
        lemma_lines(place_named(ts, base, names.take(n - 1)).off);
    }
}

proof fn lemma_rest_grows(ts: Seq<TensorInfo>, first: Placing, k: nat, n: nat)
    requires
        k <= n <= ts.len(),
    ensures
        place_rest(ts, first, k).off <= place_rest(ts, first, n).off,
    decreases n,
{
    if k < n {
        lemma_rest_grows(ts, first, k, (n - 1) as nat);
        lemma_lines(place_rest(ts, first, (n - 1) as nat).off);
    }
}

proof fn lemma_named_is_packed(ts: Seq<TensorInfo>, base: int, names: Seq<Seq<char>>)
    requires
        0 <= base,
        place_named(ts, base, names).off <= u64::MAX,
    ensures
        is_packed(place_named(ts, base, names), base),
    decreases names.len(),
{
    if names.len() > 0 {
        let n = names.len() as int;
        lemma_named_grows(ts, base, names, n - 1, n);
        assert(names.take(n) =~= names);
        assert(names.take(n - 1) =~= names.drop_last());
        lemma_named_is_packed(ts, base, names.drop_last());
        let p = place_named(ts, base, names.drop_last());
        match last_named(ts, names.last()) {
            Some(i) => {
                lemma_placed_is_packed(p, base, ts[i], name_hash(names.last()));
            },
            None => {},
        }
    }
}

proof fn lemma_rest_is_packed(ts: Seq<TensorInfo>, first: Placing, base: int, n: nat)
    requires
        0 <= base,
        n <= ts.len(),
        is_packed(first, base),
        place_rest(ts, first, n).off <= u64::MAX,
    ensures
        is_packed(place_rest(ts, first, n), base),
    decreases n,
{
    if n > 0 {
        lemma_rest_grows(ts, first, (n - 1) as nat, n);
        lemma_rest_is_packed(ts, first, base, (n - 1) as nat);
        let hash = name_hash(ts[n - 1].name@);
        if !has_hash(first.entries, hash) {
            lemma_placed_is_packed(
                place_rest(ts, first, (n - 1) as nat),
                base,
                ts[n - 1],
                hash,
            );
        }
    }
}

/// Tensors are placed one behind the other, each at a multiple of 64 bytes, and
/// none before `base`.
pub proof fn law_tensors_are_packed(ts: Seq<TensorInfo>, base: int)
    requires
        0 <= base,
        place_all(ts, base).off <= u64::MAX,
    ensures
        is_packed(place_all(ts, base), base),
{
    let first = place_named(ts, base, load_order());
    lemma_rest_grows(ts, first, 0, ts.len());
    lemma_named_is_packed(ts, base, load_order());
    lemma_rest_is_packed(ts, first, base, ts.len());
}

/// The hashes of the entries.
pub open spec fn hashes(entries: Seq<TensorEntry>) -> Seq<u64> {
    entries.map_values(|e: TensorEntry| e.name_hash)
}

/// `sorted` is `entries` in the stable order of their hashes.
pub open spec fn is_sorted_by_hash(
    entries: Seq<TensorEntry>,
    sorted: Seq<TensorEntry>,
) -> bool {
    exists|order: Seq<usize>|
        {
            &&& #[trigger] sort::is_stable_order(hashes(entries), order)
            &&& sorted.len() == order.len()
            &&& forall|i: int|
                0 <= i < sorted.len() ==> #[trigger] sorted[i] == entries[order[i] as int]
        }
}

/// The first entry with this hash.
pub open spec fn find(entries: Seq<TensorEntry>, hash: u64) -> Option<TensorEntry>
    decreases entries.len(),
{
    if entries.len() == 0 {
        None
    } else if entries[0].name_hash == hash {
        Some(entries[0])
    } else {
        find(entries.skip(1), hash)
    }
}

/// The first entry with a hash is the one before which none has it.
proof fn lemma_find(entries: Seq<TensorEntry>, hash: u64, i: int)
    requires
        0 <= i <= entries.len(),
        forall|j: int| 0 <= j < i ==> (#[trigger] entries[j]).name_hash != hash,
        i < entries.len() ==> entries[i].name_hash == hash,
    ensures
        find(entries, hash) == if i < entries.len() {
            Some(entries[i])
        } else {
            None
        },
    decreases i,
{
    if i > 0 {
        let tail = entries.skip(1);
        assert(entries[0].name_hash != hash);
        assert forall|j: int| 0 <= j < i - 1 implies (#[trigger] tail[j]).name_hash != hash by {
            assert(tail[j] == entries[j + 1]);
        }
        lemma_find(tail, hash, i - 1);
    }
}

/// Sorted array of tensor entries for lookup by name hash.
#[derive(Default)]
pub struct TensorRegistry {
    pub entries: Vec<TensorEntry>,
}

impl TensorRegistry {
    /// The entries are in the order of their hashes.
    pub open spec fn well_formed(&self) -> bool {
        forall|i: int, j: int|
            0 <= i <= j < self.entries@.len() ==> (#[trigger] self.entries@[i]).name_hash <= (
            #[trigger] self.entries@[j]).name_hash
    }

    /// Build from parsed GGUF tensors in cache-friendly order.
    ///
    /// Groups: the embedding, the dense tensors layer by layer, the experts'
    /// arrays, and the rest. All aligned to 64 bytes.
    pub fn from_tensors(tensors: &[TensorInfo], weights_base: u64) -> (r: Self)
        requires
            place_all(tensors@, weights_base as int).off <= u64::MAX,
        ensures
            r.well_formed(),
            is_sorted_by_hash(place_all(tensors@, weights_base as int).entries, r.entries@),
    {
        let names: Vec<String> = known_names();
        let by_name: vstd::hash_map::StringHashMap<usize> = index_by_name(tensors);
        let mut entries: Vec<TensorEntry> = Vec::new();
        let mut off: u64 = weights_base;
        let ghost base = weights_base as int;
        let ghost order = load_order();
        let ghost first = place_named(tensors@, base, order);
        proof {
            lemma_rest_grows(tensors@, first, 0, tensors@.len());
            assert(order.take(0) =~= Seq::empty());
        }
        let mut k: usize = 0;
        while k < names.len()
            invariant
                k <= names@.len(),
                name_views(names@) == order,
                order == load_order(),
                first == place_named(tensors@, base, order),
                first.off <= u64::MAX,
                entries@ == place_named(tensors@, base, order.take(k as int)).entries,
                off == place_named(tensors@, base, order.take(k as int)).off,
                forall|n: Seq<char>|
                    by_name@.contains_key(n) <==> last_named(tensors@, n) is Some,
                forall|n: Seq<char>| #[trigger]
                    by_name@.contains_key(n) ==> by_name@[n] < tensors@.len() && last_named(
                        tensors@,
                        n,
                    ) == Some(by_name@[n] as int),
            decreases names.len() - k,
        {
            proof {
                assert(order.take(k + 1).drop_last() =~= order.take(k as int));
                assert(order.take(k + 1).last() == names@[k as int]@);
                lemma_named_grows(tensors@, base, order, k + 1, order.len() as int);
                assert(order.take(order.len() as int) =~= order);
            }
            let name: &str = names[k].as_str();
            match by_name.get(name) {
                Some(i) => {
                    assert(by_name@.contains_key(name@));
                    let t: &TensorInfo = &tensors[*i];
                    off = push_entry(&mut entries, off, t, hash_of(name));
                },
                None => {
                    assert(!by_name@.contains_key(name@));
                },
            }
            k = k + 1;
        }
        assert(order.take(k as int) =~= order);
        let assigned: HashSet<u64> = hash_set(&entries);
        let mut n: usize = 0;
        while n < tensors.len()
            invariant
                n <= tensors@.len(),
                assigned@ == Set::new(|h: u64| has_hash(first.entries, h)),
                entries@ == place_rest(tensors@, first, n as nat).entries,
                off == place_rest(tensors@, first, n as nat).off,
                place_rest(tensors@, first, tensors@.len()).off <= u64::MAX,
            decreases tensors.len() - n,
        {
            broadcast use vstd::std_specs::hash::group_hash_axioms;

            proof {
                lemma_rest_grows(tensors@, first, (n + 1) as nat, tensors@.len());
            }
            let t: &TensorInfo = &tensors[n];
            let hash: u64 = hash_of(t.name.as_str());
            if !assigned.contains(&hash) {
                off = push_entry(&mut entries, off, t, hash);
            }
            n = n + 1;
        }
        let sorted: Vec<TensorEntry> = sort_by_hash(&entries);
        TensorRegistry { entries: sorted }
    }

    /// Look up a tensor by name: the first entry with its hash.
    pub fn lookup(&self, name: &str) -> (r: Option<&TensorEntry>)
        requires
            self.well_formed(),
        ensures
            match (r, find(self.entries@, name_hash(name@))) {
                (Some(e), Some(f)) => *e == f,
                (None, None) => true,
                _ => false,
            },
    {
        let hash: u64 = hash_of(name);
        let mut lo: usize = 0;
        let mut hi: usize = self.entries.len();
        while lo < hi
            invariant
                lo <= hi <= self.entries@.len(),
                self.well_formed(),
                forall|j: int| 0 <= j < lo ==> (#[trigger] self.entries@[j]).name_hash < hash,
                forall|j: int|
                    hi <= j < self.entries@.len() ==> (#[trigger] self.entries@[j]).name_hash
                        >= hash,
            decreases hi - lo,
        {
            let mid: usize = lo + (hi - lo) / 2;
            if self.entries[mid].name_hash < hash {
                lo = mid + 1;
            } else {
                hi = mid;
            }
        }
        if lo < self.entries.len() && self.entries[lo].name_hash == hash {
            proof {
                lemma_find(self.entries@, hash, lo as int);
            }
            Some(&self.entries[lo])
        } else {
            proof {
                assert forall|j: int| 0 <= j < self.entries@.len() implies (
                #[trigger] self.entries@[j]).name_hash != hash by {
                    if j >= lo {
                        assert(self.entries@[lo as int].name_hash <= self.entries@[j].name_hash);
                    }
                }
                lemma_find(self.entries@, hash, self.entries@.len() as int);
            }
            None
        }
    }
}

/// Places a tensor at the next cache line and returns the offset behind it.
fn push_entry(entries: &mut Vec<TensorEntry>, off: u64, t: &TensorInfo, hash: u64) -> (r: u64)
    requires
        lines(off as int) + t.size <= u64::MAX,
    ensures
        final(entries)@ == placed(Placing { entries: old(entries)@, off: off as int }, *t, hash)
            .entries,
        r == placed(Placing { entries: old(entries)@, off: off as int }, *t, hash).off,
{
    proof {
        lemma_lines(off as int);
        reveal(lines);
        assert(align::is_power_of_two(ALIGN)) by {
            assert(64u64 & 63u64 == 0) by (bit_vector);
        }
    }
    let start: u64 = align::align_up(off, ALIGN);
    entries.push(
        TensorEntry {
            name_hash: hash,
            arena_offset: start,
            size: t.size,
            ggml_type: t.ggml_type.to_u32(),
        },
    );
    start + t.size
}

/// The last place of every name.
fn index_by_name(tensors: &[TensorInfo]) -> (r: vstd::hash_map::StringHashMap<usize>)
    ensures
        forall|n: Seq<char>| r@.contains_key(n) <==> last_named(tensors@, n) is Some,
        forall|n: Seq<char>| #[trigger]
            r@.contains_key(n) ==> r@[n] < tensors@.len() && last_named(tensors@, n) == Some(
                r@[n] as int,
            ),
{
    let mut map: vstd::hash_map::StringHashMap<usize> = vstd::hash_map::StringHashMap::new();
    let mut i: usize = 0;
    assert(tensors@.take(0) =~= Seq::empty());
    while i < tensors.len()
        invariant
            i <= tensors@.len(),
            forall|n: Seq<char>|
                map@.contains_key(n) <==> last_named(tensors@.take(i as int), n) is Some,
            forall|n: Seq<char>| #[trigger]
                map@.contains_key(n) ==> map@[n] < i && last_named(
                    tensors@.take(i as int),
                    n,
                ) == Some(map@[n] as int),
        decreases tensors.len() - i,
    {
        assert(tensors@.take(i + 1).drop_last() =~= tensors@.take(i as int));
        map.insert(tensors[i].name.clone(), i);
        i = i + 1;
    }
    assert(tensors@.take(i as int) =~= tensors@);
    map
}

/// The hashes of the entries.
fn hash_set(entries: &Vec<TensorEntry>) -> (r: HashSet<u64>)
    ensures
        r@ == Set::new(|h: u64| has_hash(entries@, h)),
{
    broadcast use vstd::std_specs::hash::group_hash_axioms;

    let mut set: HashSet<u64> = HashSet::new();
    let mut i: usize = 0;
    while i < entries.len()
        invariant
            i <= entries@.len(),
            forall|h: u64| set@.contains(h) <==> has_hash(entries@.take(i as int), h),
        decreases entries.len() - i,
    {
        broadcast use vstd::std_specs::hash::group_hash_axioms;

        let ghost before = set@;
        set.insert(entries[i].name_hash);
        proof {
            let done = entries@.take(i as int);
            let more = entries@.take(i + 1);
            assert forall|h: u64| set@.contains(h) <==> has_hash(more, h) by {
                if has_hash(done, h) {
                    let j = choose|j: int|
                        0 <= j < done.len() && (#[trigger] done[j]).name_hash == h;
                    assert(more[j].name_hash == h);
                }
                if h == entries@[i as int].name_hash {
                    assert(more[i as int].name_hash == h);
                }
                if has_hash(more, h) {
                    let j = choose|j: int|
                        0 <= j < more.len() && (#[trigger] more[j]).name_hash == h;
                    if j < i {
                        assert(done[j].name_hash == h);
                    }
                }
            }
        }
        i = i + 1;
    }
    assert(entries@.take(i as int) =~= entries@);
    assert(set@ =~= Set::new(|h: u64| has_hash(entries@, h)));
    set
}

/// The entries in the stable order of their hashes.
fn sort_by_hash(entries: &Vec<TensorEntry>) -> (sorted: Vec<TensorEntry>)
    ensures
        is_sorted_by_hash(entries@, sorted@),
        forall|i: int, j: int|
            0 <= i <= j < sorted@.len() ==> (#[trigger] sorted@[i]).name_hash <= (
            #[trigger] sorted@[j]).name_hash,
{
    let mut keys: Vec<u64> = Vec::new();
    let mut i: usize = 0;
    while i < entries.len()
        invariant
            i <= entries@.len(),
            keys@ == hashes(entries@).take(i as int),
        decreases entries.len() - i,
    {
        keys.push(entries[i].name_hash);
        i = i + 1;
        assert(keys@ =~= hashes(entries@).take(i as int));
    }
    assert(keys@ =~= hashes(entries@));
    let order: Vec<usize> = sort::stable_order(keys.as_slice());
    let mut sorted: Vec<TensorEntry> = Vec::new();
    let mut k: usize = 0;
    while k < order.len()
        invariant
            k <= order@.len(),
            sort::is_stable_order(hashes(entries@), order@),
            sorted@.len() == k,
            forall|j: int| 0 <= j < k ==> #[trigger] sorted@[j] == entries@[order@[j] as int],
        decreases order.len() - k,
    {
        sorted.push(entries[order[k]]);
        k = k + 1;
    }
    proof {
        assert forall|a: int, b: int| 0 <= a <= b < sorted@.len() implies (
        #[trigger] sorted@[a]).name_hash <= (#[trigger] sorted@[b]).name_hash by {
            if a < b {
                assert(sort::comes_before(
                    hashes(entries@),
                    order@[a] as int,
                    order@[b] as int,
                ));
            }
        }
        assert(sort::is_stable_order(hashes(entries@), order@));
    }
    sorted
}

/// Where a tensor lies in the arena; zero, which is no tensor's place, when
/// there is none of this name.
pub open spec fn offset_under(entries: Seq<TensorEntry>, name: Seq<char>) -> u64 {
    match find(entries, name_hash(name)) {
        Some(e) => e.arena_offset,
        None => 0,
    }
}

/// Per-layer offsets for all weight matrices.
/// Indexed by layer number (0..block_count).
pub struct LayerWeights {
    /// The embedding table.
    pub embedding: u64,
    /// Context length.
    pub max_seq_len: u32,
    pub attn_q: Vec<u64>,
    pub attn_k: Vec<u64>,
    pub attn_v: Vec<u64>,
    pub attn_output: Vec<u64>,
    pub attn_gate: Vec<u64>,
    pub attn_norm: Vec<u64>,
    pub ffn_norm: Vec<u64>,
    pub ffn_gate: Vec<u64>,
    pub shared_w1: Vec<u64>,
    pub shared_w2: Vec<u64>,
    pub shared_w3: Vec<u64>,
    /// Flat: `[layer * num_experts + expert]`.
    pub expert_w1: Vec<u64>,
    pub expert_w2: Vec<u64>,
    pub expert_w3: Vec<u64>,
    pub hidden_size: u32,
    pub intermediate_size: u32,
    pub num_layers: u32,
    pub num_experts: u32,
    /// Heads that predict further tokens, and their two matrices.
    pub num_mtp_heads: u32,
    pub mtp_w1: Vec<u64>,
    pub mtp_w2: Vec<u64>,
}

/// `v` holds the offset of one tensor of every layer.
pub open spec fn per_layer(
    v: Seq<u64>,
    entries: Seq<TensorEntry>,
    n: u32,
    suffix: Seq<char>,
) -> bool {
    &&& v.len() == n
    &&& forall|l: int|
        0 <= l < n ==> #[trigger] v[l] == offset_under(entries, layer_key(l as nat, suffix))
}

/// `v` holds the offset of one tensor of every expert of every layer.
pub open spec fn per_expert(
    v: Seq<u64>,
    entries: Seq<TensorEntry>,
    n: u32,
    e: u32,
    suffix: Seq<char>,
) -> bool {
    &&& v.len() == n * e
    &&& forall|i: int|
        0 <= i < n * e ==> #[trigger] v[i] == offset_under(
            entries,
            expert_key((i / e as int) as nat, (i % e as int) as nat, suffix),
        )
}

impl LayerWeights {
    /// The weights are where the registry says.
    pub open spec fn is_from(&self, entries: Seq<TensorEntry>, cfg: ModelConfig) -> bool {
        let n = cfg.block_count;
        let e = cfg.expert_count;
        &&& self.embedding == offset_under(entries, "token_embd.weight"@)
        &&& self.max_seq_len == cfg.context_length
        &&& per_layer(self.attn_q@, entries, n, ".attn_q.weight"@)
        &&& per_layer(self.attn_k@, entries, n, ".attn_k.weight"@)
        &&& per_layer(self.attn_v@, entries, n, ".attn_v.weight"@)
        &&& per_layer(self.attn_output@, entries, n, ".attn_output.weight"@)
        &&& per_layer(self.attn_gate@, entries, n, ".attn_gate.weight"@)
        &&& per_layer(self.attn_norm@, entries, n, ".attn_norm.weight"@)
        &&& per_layer(self.ffn_norm@, entries, n, ".ffn_norm.weight"@)
        &&& per_layer(self.ffn_gate@, entries, n, ".ffn_gate.weight"@)
        &&& per_layer(self.shared_w1@, entries, n, ".shared_expert.w1.weight"@)
        &&& per_layer(self.shared_w2@, entries, n, ".shared_expert.w2.weight"@)
        &&& per_layer(self.shared_w3@, entries, n, ".shared_expert.w3.weight"@)
        &&& per_expert(self.expert_w1@, entries, n, e, ".w1.weight"@)
        &&& per_expert(self.expert_w2@, entries, n, e, ".w2.weight"@)
        &&& per_expert(self.expert_w3@, entries, n, e, ".w3.weight"@)
        &&& self.hidden_size == cfg.embedding_length
        &&& self.intermediate_size == cfg.feed_forward_length
        &&& self.num_layers == n
        &&& self.num_experts == e
        &&& self.num_mtp_heads == 0
        &&& self.mtp_w1@.len() == 0
        &&& self.mtp_w2@.len() == 0
    }

    /// Every list covers all layers and experts.
    pub open spec fn well_formed(&self) -> bool {
        let n = self.num_layers;
        &&& self.attn_q@.len() == n
        &&& self.attn_k@.len() == n
        &&& self.attn_v@.len() == n
        &&& self.attn_output@.len() == n
        &&& self.attn_gate@.len() == n
        &&& self.attn_norm@.len() == n
        &&& self.ffn_norm@.len() == n
        &&& self.ffn_gate@.len() == n
        &&& self.shared_w1@.len() == n
        &&& self.shared_w2@.len() == n
        &&& self.shared_w3@.len() == n
        &&& self.expert_w1@.len() == n * self.num_experts
        &&& self.expert_w2@.len() == n * self.num_experts
        &&& self.expert_w3@.len() == n * self.num_experts
        &&& self.mtp_w1@.len() == self.num_mtp_heads
        &&& self.mtp_w2@.len() == self.num_mtp_heads
    }

    /// Build from registry by resolving known tensor name patterns.
    pub fn from_registry(reg: &TensorRegistry, cfg: &ModelConfig) -> (r: Self)
        requires
            reg.well_formed(),
            cfg.block_count * cfg.expert_count <= usize::MAX,
        ensures
            r.is_from(reg.entries@, *cfg),
            r.well_formed(),
    {
        let n: u32 = cfg.block_count;
        let e: u32 = cfg.expert_count;
        LayerWeights {
            embedding: reg.offset("token_embd.weight"),
            max_seq_len: cfg.context_length,
            attn_q: reg.layer_offsets(n, ".attn_q.weight"),
            attn_k: reg.layer_offsets(n, ".attn_k.weight"),
            attn_v: reg.layer_offsets(n, ".attn_v.weight"),
            attn_output: reg.layer_offsets(n, ".attn_output.weight"),
            attn_gate: reg.layer_offsets(n, ".attn_gate.weight"),
            attn_norm: reg.layer_offsets(n, ".attn_norm.weight"),
            ffn_norm: reg.layer_offsets(n, ".ffn_norm.weight"),
            ffn_gate: reg.layer_offsets(n, ".ffn_gate.weight"),
            shared_w1: reg.layer_offsets(n, ".shared_expert.w1.weight"),
            shared_w2: reg.layer_offsets(n, ".shared_expert.w2.weight"),
            shared_w3: reg.layer_offsets(n, ".shared_expert.w3.weight"),
            expert_w1: reg.expert_offsets(n, e, ".w1.weight"),
            expert_w2: reg.expert_offsets(n, e, ".w2.weight"),
            expert_w3: reg.expert_offsets(n, e, ".w3.weight"),
            hidden_size: cfg.embedding_length,
            intermediate_size: cfg.feed_forward_length,
            num_layers: n,
            num_experts: e,
            num_mtp_heads: 0,
            mtp_w1: Vec::new(),
            mtp_w2: Vec::new(),
        }
    }
}

impl TensorRegistry {
    fn offset(&self, name: &str) -> (r: u64)
        requires
            self.well_formed(),
        ensures
            r == offset_under(self.entries@, name@),
    {
        match self.lookup(name) {
            Some(e) => e.arena_offset,
            None => 0,
        }
    }

    fn layer_offsets(&self, n: u32, suffix: &str) -> (r: Vec<u64>)
        requires
            self.well_formed(),
        ensures
            per_layer(r@, self.entries@, n, suffix@),
    {
        let mut out: Vec<u64> = Vec::new();
        let mut l: u32 = 0;
        while l < n
            invariant
                l <= n,
                self.well_formed(),
                per_layer(out@, self.entries@, l, suffix@),
            decreases n - l,
        {
            out.push(self.offset(layer_name(l as u64, suffix).as_str()));
            l = l + 1;
        }
        out
    }

    fn expert_offsets(&self, n: u32, e: u32, suffix: &str) -> (r: Vec<u64>)
        requires
            self.well_formed(),
            n * e <= usize::MAX,
        ensures
            per_expert(r@, self.entries@, n, e, suffix@),
    {
        let all: usize = n as usize * e as usize;
        let mut out: Vec<u64> = Vec::new();
        let mut i: usize = 0;
        while i < all
            invariant
                i <= all,
                all == n * e,
                self.well_formed(),
                out@.len() == i,
                forall|j: int|
                    0 <= j < i ==> #[trigger] out@[j] == offset_under(
                        self.entries@,
                        expert_key((j / e as int) as nat, (j % e as int) as nat, suffix@),
                    ),
            decreases all - i,
        {
            assert(e > 0) by {
                if e == 0 {
                    assert(n * 0 == 0);
                }
            }
            let layer: u64 = (i / e as usize) as u64;
            let expert: u64 = (i % e as usize) as u64;
            out.push(self.offset(expert_name(layer, expert, suffix).as_str()));
            i = i + 1;
        }
        out
    }
}

/// The flat index of an expert in a layer is one that `per_expert` lists for it.
pub proof fn lemma_expert_index(layer: int, expert: int, e: int)
    requires
        0 <= layer,
        0 <= expert < e,
    ensures
        (layer * e + expert) / e == layer,
        (layer * e + expert) % e == expert,
{
    vstd::arithmetic::div_mod::lemma_fundamental_div_mod_converse(
        layer * e + expert,
        e,
        layer,
        expert,
    );
}

/// The weights of every expert are found at its layer and number.
pub proof fn law_expert_weights(
    w: LayerWeights,
    entries: Seq<TensorEntry>,
    cfg: ModelConfig,
    layer: int,
    expert: int,
)
    requires
        w.is_from(entries, cfg),
        0 <= layer < cfg.block_count,
        0 <= expert < cfg.expert_count,
    ensures
        ({
            let i = layer * w.num_experts + expert;
            &&& 0 <= i < w.expert_w1@.len()
            &&& w.expert_w1@[i] == offset_under(
                entries,
                expert_key(layer as nat, expert as nat, ".w1.weight"@),
            )
            &&& w.expert_w2@[i] == offset_under(
                entries,
                expert_key(layer as nat, expert as nat, ".w2.weight"@),
            )
            &&& w.expert_w3@[i] == offset_under(
                entries,
                expert_key(layer as nat, expert as nat, ".w3.weight"@),
            )
        }),
{
    let e = cfg.expert_count as int;
    let n = cfg.block_count as int;
    lemma_expert_index(layer, expert, e);
    assert(0 <= layer * e + expert < n * e) by (nonlinear_arith)
        requires
            0 <= layer < n,
            0 <= expert < e,
    ;
}

/// Bytes of the first `n` tensors.
pub open spec fn size_sum(ts: Seq<TensorInfo>, n: nat) -> int
    decreases n,
{
    if n == 0 {
        0
    } else {
        size_sum(ts, (n - 1) as nat) + ts[n - 1].size
    }
}

proof fn lemma_size_sum_grows(ts: Seq<TensorInfo>, k: nat, n: nat)
    requires
        k <= n,
    ensures
        size_sum(ts, k) <= size_sum(ts, n),
    decreases n,
{
    if k < n {
        lemma_size_sum_grows(ts, k, (n - 1) as nat);
    }
}

/// Bytes of all tensors.
pub fn total_weight_size(tensors: &[TensorInfo]) -> (r: u64)
    requires
        size_sum(tensors@, tensors@.len()) <= u64::MAX,
    ensures
        r == size_sum(tensors@, tensors@.len()),
{
    let mut sum: u64 = 0;
    let mut i: usize = 0;
    while i < tensors.len()
        invariant
            i <= tensors@.len(),
            sum == size_sum(tensors@, i as nat),
            size_sum(tensors@, tensors@.len()) <= u64::MAX,
        decreases tensors.len() - i,
    {
        proof {
            lemma_size_sum_grows(tensors@, (i + 1) as nat, tensors@.len());
        }
        sum = sum + tensors[i].size;
        i = i + 1;
    }
    sum
}

/// `a` with the bytes of `src` from `at` on.
pub open spec fn overwritten(a: Seq<u8>, at: int, src: Seq<u8>) -> Seq<u8> {
    Seq::new(
        a.len(),
        |i: int|
            if at <= i < at + src.len() {
                src[i - at]
            } else {
                a[i]
            },
    )
}

/// Copies `src` over the part of `dst` from `at` on; the rest of `dst` stays.
fn copy_into(dst: &mut [u8], at: usize, src: &[u8])
    requires
        at + src@.len() <= old(dst)@.len(),
    ensures
        final(dst)@ == overwritten(old(dst)@, at as int, src@),
{
    let ghost start = dst@;
    assert(dst.len() == dst@.len());
    assert(start =~= overwritten(start, at as int, src@.take(0)));
    let mut i: usize = 0;
    while i < src.len()
        invariant
            i <= src@.len(),
            at + src@.len() <= start.len() <= usize::MAX,
            dst@ == overwritten(start, at as int, src@.take(i as int)),
        decreases src.len() - i,
    {
        dst[at + i] = src[i];
        i = i + 1;
        assert(dst@ =~= overwritten(start, at as int, src@.take(i as int)));
    }
    assert(src@.take(i as int) =~= src@);
}

/// The bytes of a tensor in a file whose data section starts at `data_offset`.
pub open spec fn tensor_slice(data: Seq<u8>, data_offset: u64, t: TensorInfo) -> Seq<u8> {
    data.subrange(data_offset + t.offset, data_offset + t.offset + t.size)
}

/// The tensor lies in the file, and its place lies in an arena of `len` bytes.
pub open spec fn can_load(
    data: Seq<u8>,
    data_offset: u64,
    t: TensorInfo,
    entries: Seq<TensorEntry>,
    len: int,
) -> bool {
    find(entries, name_hash(t.name@)) matches Some(e) ==> {
        &&& data_offset + t.offset + t.size <= data.len()
        &&& e.arena_offset + t.size <= len
    }
}

/// The tensor can be held in IQ4_XS blocks: it is in half precision, and its
/// weights fill whole blocks.
pub open spec fn is_convertible(t: TensorInfo) -> bool {
    t.ggml_type == GgmlType::F16 && t.size % 64 == 0
}

/// What a tensor's place starts with after loading: its bytes from the file, or
/// its weights in IQ4_XS blocks where they are converted.
pub open spec fn stored(data: Seq<u8>, data_offset: u64, t: TensorInfo, convert: bool) -> Seq<u8> {
    let b = tensor_slice(data, data_offset, t);
    if convert && is_convertible(t) {
        quantize::quantized(quantize::halves_of(b))
    } else {
        b
    }
}

/// The arena after the first `n` tensors have been brought to their places.
pub open spec fn loaded(
    data: Seq<u8>,
    data_offset: u64,
    ts: Seq<TensorInfo>,
    entries: Seq<TensorEntry>,
    arena: Seq<u8>,
    convert: bool,
    n: nat,
) -> Seq<u8>
    decreases n,
{
    if n == 0 {
        arena
    } else {
        let before = loaded(data, data_offset, ts, entries, arena, convert, (n - 1) as nat);
        let t = ts[n - 1];
        match find(entries, name_hash(t.name@)) {
            Some(e) => overwritten(
                before,
                e.arena_offset as int,
                stored(data, data_offset, t, convert),
            ),
            None => before,
        }
    }
}

/// Copy weights from GGUF tensors to the arena, each to its registered place.
/// With `convert`, tensors in half precision become IQ4_XS blocks at the start of
/// their places.
pub fn load_weights_from_tensors(
    data: &[u8],
    tensor_data_offset: u64,
    tensors: &[TensorInfo],
    reg: &TensorRegistry,
    arena: &mut [u8],
    convert: bool,
)
    requires
        reg.well_formed(),
        forall|i: int|
            0 <= i < tensors@.len() ==> can_load(
                data@,
                tensor_data_offset,
                #[trigger] tensors@[i],
                reg.entries@,
                old(arena)@.len() as int,
            ),
    ensures
        final(arena)@ == loaded(
            data@,
            tensor_data_offset,
            tensors@,
            reg.entries@,
            old(arena)@,
            convert,
            tensors@.len(),
        ),
{
    let ghost start = arena@;
    let mut i: usize = 0;
    assert(data.len() == data@.len());
    while i < tensors.len()
        invariant
            i <= tensors@.len(),
            reg.well_formed(),
            data@.len() <= usize::MAX,
            start == old(arena)@,
            arena@ == loaded(
                data@,
                tensor_data_offset,
                tensors@,
                reg.entries@,
                start,
                convert,
                i as nat,
            ),
            arena@.len() == start.len(),
            forall|k: int|
                0 <= k < tensors@.len() ==> can_load(
                    data@,
                    tensor_data_offset,
                    #[trigger] tensors@[k],
                    reg.entries@,
                    start.len() as int,
                ),
        decreases tensors.len() - i,
    {
        let t: &TensorInfo = &tensors[i];
        assert(can_load(
            data@,
            tensor_data_offset,
            tensors@[i as int],
            reg.entries@,
            start.len() as int,
        ));
        match reg.lookup(t.name.as_str()) {
            Some(entry) => {
                let at: usize = (tensor_data_offset + t.offset) as usize;
                let src: &[u8] = vstd::slice::slice_subrange(data, at, at + t.size as usize);
                assert(arena.len() == arena@.len());
                assert(src@ =~= tensor_slice(data@, tensor_data_offset, *t));
                if convert && t.ggml_type == GgmlType::F16 && t.size % 64 == 0 {
                    let numbers: Vec<u16> = quantize::read_halves(src);
                    let blocks: Vec<u8> = quantize::quantize_f16_to_iq4xs(numbers.as_slice());
                    copy_into(arena, entry.arena_offset as usize, blocks.as_slice());
                } else {
                    copy_into(arena, entry.arena_offset as usize, src);
                }
            },
            None => {},
        }
        i = i + 1;
    }
}

/// The entry has the hash and the size of some tensor.
pub open spec fn is_tensor_entry(ts: Seq<TensorInfo>, e: TensorEntry) -> bool {
    exists|k: int|
        0 <= k < ts.len() && name_hash((#[trigger] ts[k]).name@) == e.name_hash && ts[k].size
            == e.size && ts[k].ggml_type.code() == e.ggml_type
}

proof fn lemma_last_named(ts: Seq<TensorInfo>, name: Seq<char>)
    ensures
        last_named(ts, name) matches Some(i) ==> 0 <= i < ts.len() && ts[i].name@ == name,
    decreases ts.len(),
{
    if ts.len() > 0 && ts.last().name@ != name {
        lemma_last_named(ts.drop_last(), name);
    }
}

proof fn lemma_named_entries(ts: Seq<TensorInfo>, base: int, names: Seq<Seq<char>>)
    ensures
        forall|i: int|
            0 <= i < place_named(ts, base, names).entries.len() ==> is_tensor_entry(
                ts,
                #[trigger] place_named(ts, base, names).entries[i],
            ),
    decreases names.len(),
{
    if names.len() > 0 {
        lemma_named_entries(ts, base, names.drop_last());
        lemma_last_named(ts, names.last());
        let p = place_named(ts, base, names.drop_last());
        let q = place_named(ts, base, names);
        assert forall|i: int| 0 <= i < q.entries.len() implies is_tensor_entry(
            ts,
            #[trigger] q.entries[i],
        ) by {
            if i < p.entries.len() {
                assert(q.entries[i] == p.entries[i]);
            } else {
                let k = last_named(ts, names.last())->0;
                assert(name_hash(ts[k].name@) == q.entries[i].name_hash);
            }
        }
    }
}

/// Placing the rest keeps what was placed first.
proof fn lemma_rest_keeps(ts: Seq<TensorInfo>, first: Placing, k: nat, n: nat, i: int)
    requires
        k <= n <= ts.len(),
        0 <= i < place_rest(ts, first, k).entries.len(),
    ensures
        i < place_rest(ts, first, n).entries.len(),
        place_rest(ts, first, n).entries[i] == place_rest(ts, first, k).entries[i],
    decreases n,
{
    if k < n {
        lemma_rest_keeps(ts, first, k, (n - 1) as nat, i);
    }
}

proof fn lemma_rest_entry(ts: Seq<TensorInfo>, first: Placing, n: nat, i: int)
    requires
        n <= ts.len(),
        forall|j: int|
            0 <= j < first.entries.len() ==> is_tensor_entry(ts, #[trigger] first.entries[j]),
        0 <= i < place_rest(ts, first, n).entries.len(),
    ensures
        is_tensor_entry(ts, place_rest(ts, first, n).entries[i]),
    decreases n,
{
    if n > 0 {
        let p = place_rest(ts, first, (n - 1) as nat);
        let q = place_rest(ts, first, n);
        if i < p.entries.len() {
            lemma_rest_entry(ts, first, (n - 1) as nat, i);
            assert(q.entries[i] == p.entries[i]);
        } else {
            assert(name_hash(ts[n - 1].name@) == q.entries[i].name_hash);
        }
    }
}

/// Every tensor has an entry with its hash.
proof fn lemma_rest_covers(ts: Seq<TensorInfo>, first: Placing, k: int)
    requires
        0 <= k < ts.len(),
    ensures
        has_hash(place_rest(ts, first, ts.len()).entries, name_hash(ts[k].name@)),
{
    let h = name_hash(ts[k].name@);
    let all = place_rest(ts, first, ts.len()).entries;
    if has_hash(first.entries, h) {
        let i = choose|i: int|
            0 <= i < first.entries.len() && (#[trigger] first.entries[i]).name_hash == h;
        lemma_rest_keeps(ts, first, 0, ts.len(), i);
        assert(all[i].name_hash == h);
    } else {
        let p = place_rest(ts, first, k as nat);
        let q = place_rest(ts, first, (k + 1) as nat);
        let i = p.entries.len() as int;
        assert(q.entries[i].name_hash == h);
        lemma_rest_keeps(ts, first, (k + 1) as nat, ts.len(), i);
        assert(all[i].name_hash == h);
    }
}

/// `find` gives an entry with the hash, if there is one.
proof fn lemma_find_gives(entries: Seq<TensorEntry>, hash: u64)
    ensures
        match find(entries, hash) {
            Some(e) => exists|i: int|
                0 <= i < entries.len() && #[trigger] entries[i] == e && e.name_hash == hash,
            None => !has_hash(entries, hash),
        },
    decreases entries.len(),
{
    if entries.len() > 0 {
        if entries[0].name_hash != hash {
            let tail = entries.skip(1);
            lemma_find_gives(tail, hash);
            match find(tail, hash) {
                Some(e) => {
                    let i = choose|i: int|
                        0 <= i < tail.len() && #[trigger] tail[i] == e && e.name_hash == hash;
                    assert(entries[i + 1] == e);
                },
                None => {
                    if has_hash(entries, hash) {
                        let i = choose|i: int|
                            0 <= i < entries.len() && (#[trigger] entries[i]).name_hash == hash;
                        assert(tail[i - 1].name_hash == hash);
                    }
                },
            }
        }
    }
}

/// No two tensors have names with one hash.
pub open spec fn hashes_differ(ts: Seq<TensorInfo>) -> bool {
    forall|i: int, j: int|
        0 <= i < j < ts.len() ==> name_hash((#[trigger] ts[i]).name@) != name_hash(
            (#[trigger] ts[j]).name@,
        )
}

/// Every tensor of a registry is found under its name, with its size and type,
/// at a multiple of 64 bytes and not before `base`. Under a name with the hash
/// of no tensor nothing is found.
pub proof fn law_tensors_are_found(
    ts: Seq<TensorInfo>,
    base: u64,
    entries: Seq<TensorEntry>,
    name: Seq<char>,
)
    requires
        place_all(ts, base as int).off <= u64::MAX,
        is_sorted_by_hash(place_all(ts, base as int).entries, entries),
        hashes_differ(ts),
    ensures
        forall|k: int|
            0 <= k < ts.len() && (#[trigger] ts[k]).name@ == name ==> (find(
                entries,
                name_hash(name),
            ) matches Some(e) && e.size == ts[k].size && e.ggml_type == ts[k].ggml_type.code()
                && base <= e.arena_offset && e.arena_offset % 64 == 0 && e.arena_offset + e.size
                <= place_all(ts, base as int).off),
        (forall|k: int| 0 <= k < ts.len() ==> name_hash((#[trigger] ts[k]).name@) != name_hash(name))
            ==> find(entries, name_hash(name)) is None,
{
    assert forall|k: int| 0 <= k < ts.len() && (#[trigger] ts[k]).name@ == name implies (find(
        entries,
        name_hash(name),
    ) matches Some(e) && e.size == ts[k].size && e.ggml_type == ts[k].ggml_type.code() && base
        <= e.arena_offset && e.arena_offset % 64 == 0 && e.arena_offset + e.size <= place_all(
        ts,
        base as int,
    ).off) by {
        lemma_tensor_is_found(ts, base, entries, k);
    }
    if find(entries, name_hash(name)) is Some {
        lemma_entry_is_tensor(ts, base, entries, name_hash(name));
    }
}

/// What is found under a hash is the entry of a tensor whose name has it.
proof fn lemma_entry_is_tensor(
    ts: Seq<TensorInfo>,
    base: u64,
    entries: Seq<TensorEntry>,
    hash: u64,
)
    requires
        is_sorted_by_hash(place_all(ts, base as int).entries, entries),
        find(entries, hash) is Some,
    ensures
        exists|k: int| 0 <= k < ts.len() && name_hash((#[trigger] ts[k]).name@) == hash,
{
    let all = place_all(ts, base as int).entries;
    let first = place_named(ts, base as int, load_order());
    lemma_named_entries(ts, base as int, load_order());
    lemma_find_gives(entries, hash);
    let e = find(entries, hash)->0;
    let b = choose|b: int|
        0 <= b < entries.len() && #[trigger] entries[b] == e && e.name_hash == hash;
    let order = choose|order: Seq<usize>|
        {
            &&& #[trigger] sort::is_stable_order(hashes(all), order)
            &&& entries.len() == order.len()
            &&& forall|i: int|
                0 <= i < entries.len() ==> #[trigger] entries[i] == all[order[i] as int]
        };
    assert(entries[b] == all[order[b] as int]);
    lemma_rest_entry(ts, first, ts.len(), order[b] as int);
}

proof fn lemma_tensor_is_found(
    ts: Seq<TensorInfo>,
    base: u64,
    entries: Seq<TensorEntry>,
    k: int,
)
    requires
        place_all(ts, base as int).off <= u64::MAX,
        is_sorted_by_hash(place_all(ts, base as int).entries, entries),
        hashes_differ(ts),
        0 <= k < ts.len(),
    ensures
        find(entries, name_hash(ts[k].name@)) matches Some(e) && e.size == ts[k].size
            && e.ggml_type == ts[k].ggml_type.code() && base <= e.arena_offset && e.arena_offset
            % 64 == 0 && e.arena_offset + e.size <= place_all(ts, base as int).off,
{
    let all = place_all(ts, base as int);
    let hash = name_hash(ts[k].name@);
    let i = lemma_found_place(ts, base, entries, k);
    law_tensors_are_packed(ts, base as int);
    let e = all.entries[i];
    let m = choose|m: int|
        0 <= m < ts.len() && name_hash((#[trigger] ts[m]).name@) == e.name_hash && ts[m].size
            == e.size && ts[m].ggml_type.code() == e.ggml_type;
    if m != k {
        if m < k {
            assert(name_hash(ts[m].name@) != name_hash(ts[k].name@));
        } else {
            assert(name_hash(ts[k].name@) != name_hash(ts[m].name@));
        }
    }
}

/// The place, in the order of placing, of the entry that is found for a tensor.
proof fn lemma_found_place(
    ts: Seq<TensorInfo>,
    base: u64,
    entries: Seq<TensorEntry>,
    k: int,
) -> (i: int)
    requires
        is_sorted_by_hash(place_all(ts, base as int).entries, entries),
        0 <= k < ts.len(),
    ensures
        0 <= i < place_all(ts, base as int).entries.len(),
        find(entries, name_hash(ts[k].name@)) == Some(place_all(ts, base as int).entries[i]),
        place_all(ts, base as int).entries[i].name_hash == name_hash(ts[k].name@),
        is_tensor_entry(ts, place_all(ts, base as int).entries[i]),
{
    let all = place_all(ts, base as int).entries;
    let first = place_named(ts, base as int, load_order());
    let hash = name_hash(ts[k].name@);
    lemma_named_entries(ts, base as int, load_order());
    lemma_rest_covers(ts, first, k);
    assert(has_hash(all, hash));
    let order = choose|order: Seq<usize>|
        {
            &&& #[trigger] sort::is_stable_order(hashes(all), order)
            &&& entries.len() == order.len()
            &&& forall|i: int|
                0 <= i < entries.len() ==> #[trigger] entries[i] == all[order[i] as int]
        };
    let at = choose|i: int| 0 <= i < all.len() && (#[trigger] all[i]).name_hash == hash;
    sort::law_order_omits_nothing(hashes(all), order, at);
    let a = choose|a: int| 0 <= a < order.len() && #[trigger] order[a] == at;
    assert(entries[a].name_hash == hash);
    lemma_find_gives(entries, hash);
    assert(has_hash(entries, hash));
    let e = find(entries, hash)->0;
    let b = choose|b: int|
        0 <= b < entries.len() && #[trigger] entries[b] == e && e.name_hash == hash;
    assert(entries[b] == all[order[b] as int]);
    lemma_rest_entry(ts, first, ts.len(), order[b] as int);
    order[b] as int
}

/// After loading, every tensor's place starts with what was stored for it: its
/// bytes from the file, or its weights in IQ4_XS blocks.
pub proof fn law_weights_read_back(
    data: Seq<u8>,
    data_offset: u64,
    ts: Seq<TensorInfo>,
    base: u64,
    entries: Seq<TensorEntry>,
    arena: Seq<u8>,
    convert: bool,
    k: int,
)
    requires
        place_all(ts, base as int).off <= u64::MAX,
        is_sorted_by_hash(place_all(ts, base as int).entries, entries),
        hashes_differ(ts),
        forall|i: int|
            0 <= i < ts.len() ==> can_load(
                data,
                data_offset,
                #[trigger] ts[i],
                entries,
                arena.len() as int,
            ),
        0 <= k < ts.len(),
    ensures
        ({
            let e = find(entries, name_hash(ts[k].name@))->0;
            let after = loaded(data, data_offset, ts, entries, arena, convert, ts.len());
            let b = stored(data, data_offset, ts[k], convert);
            after.subrange(e.arena_offset as int, e.arena_offset + b.len()) == b
        }),
{
    lemma_read_back(data, data_offset, ts, base, entries, arena, convert, k, ts.len());
}

proof fn lemma_read_back(
    data: Seq<u8>,
    data_offset: u64,
    ts: Seq<TensorInfo>,
    base: u64,
    entries: Seq<TensorEntry>,
    arena: Seq<u8>,
    convert: bool,
    k: int,
    n: nat,
)
    requires
        place_all(ts, base as int).off <= u64::MAX,
        is_sorted_by_hash(place_all(ts, base as int).entries, entries),
        hashes_differ(ts),
        forall|i: int|
            0 <= i < ts.len() ==> can_load(
                data,
                data_offset,
                #[trigger] ts[i],
                entries,
                arena.len() as int,
            ),
        0 <= k < n <= ts.len(),
    ensures
        loaded(data, data_offset, ts, entries, arena, convert, n).len() == arena.len(),
        ({
            let e = find(entries, name_hash(ts[k].name@))->0;
            let after = loaded(data, data_offset, ts, entries, arena, convert, n);
            let b = stored(data, data_offset, ts[k], convert);
            after.subrange(e.arena_offset as int, e.arena_offset + b.len()) == b
        }),
    decreases n,
{
    let all = place_all(ts, base as int);
    let before = loaded(data, data_offset, ts, entries, arena, convert, (n - 1) as nat);
    let after = loaded(data, data_offset, ts, entries, arena, convert, n);
    lemma_loaded_length(data, data_offset, ts, entries, arena, convert, (n - 1) as nat);
    lemma_tensor_is_found(ts, base, entries, k);
    lemma_tensor_is_found(ts, base, entries, n - 1);
    assert(can_load(data, data_offset, ts[k], entries, arena.len() as int));
    assert(can_load(data, data_offset, ts[n - 1], entries, arena.len() as int));
    let e = find(entries, name_hash(ts[k].name@))->0;
    let f = find(entries, name_hash(ts[n - 1].name@))->0;
    let src = stored(data, data_offset, ts[k], convert);
    lemma_stored_length(data, data_offset, ts[k], convert);
    lemma_stored_length(data, data_offset, ts[n - 1], convert);
    if k == n - 1 {
        assert(after.subrange(e.arena_offset as int, e.arena_offset + src.len()) =~= src);
    } else {
        lemma_read_back(data, data_offset, ts, base, entries, arena, convert, k, (n - 1) as nat);
        let i = lemma_found_place(ts, base, entries, k);
        let j = lemma_found_place(ts, base, entries, n - 1);
        assert(name_hash(ts[k].name@) != name_hash(ts[n - 1].name@));
        law_tensors_are_packed(ts, base as int);
        assert(i != j);
        assert(all.entries[i] == e && all.entries[j] == f);
        assert(after.subrange(e.arena_offset as int, e.arena_offset + src.len())
            =~= before.subrange(e.arena_offset as int, e.arena_offset + src.len()));
    }
}

/// What is stored for a tensor fits in its place.
pub proof fn lemma_stored_length(data: Seq<u8>, data_offset: u64, t: TensorInfo, convert: bool)
    requires
        data_offset + t.offset + t.size <= data.len(),
    ensures
        stored(data, data_offset, t, convert).len() <= t.size,
{
}

pub proof fn lemma_loaded_length(
    data: Seq<u8>,
    data_offset: u64,
    ts: Seq<TensorInfo>,
    entries: Seq<TensorEntry>,
    arena: Seq<u8>,
    convert: bool,
    n: nat,
)
    ensures
        loaded(data, data_offset, ts, entries, arena, convert, n).len() == arena.len(),
    decreases n,
{
    if n > 0 {
        lemma_loaded_length(data, data_offset, ts, entries, arena, convert, (n - 1) as nat);
    }
}

} // verus!
