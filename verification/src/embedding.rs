//! Embeddings of tokens, and hidden states in the arena.

use crate::bytes;
use crate::memory;
use crate::memory::{ArenaLayout, LayerWeights};
use crate::quantize;
use crate::reference;
use crate::reference::Weight;
use crate::util;
use vstd::prelude::*;

verus! {

/// Blocks of weights in the embedding of one token.
pub open spec fn embedding_blocks(w: LayerWeights) -> int {
    (w.hidden_size + 31) / 32
}

/// Where the embedding of `token` stands.
pub open spec fn embedding_source(w: LayerWeights, token: u32) -> int {
    w.embedding + token * (embedding_blocks(w) * reference::BLOCK_BYTES)
}

/// Where the hidden state of position `pos` stands.
pub open spec fn hidden_slot(l: ArenaLayout, w: LayerWeights, pos: u32) -> int {
    l.hidden_ping + pos * (w.hidden_size * 2)
}

/// The quantised embedding of `token`.
pub open spec fn embedding_of(arena: Seq<u8>, w: LayerWeights, token: u32) -> Seq<Weight> {
    Seq::new(
        w.hidden_size as nat,
        |i: int|
            reference::weight_at(
                arena,
                embedding_source(w, token) + i / 32 * reference::BLOCK_BYTES,
                i % 32,
            ),
    )
}

/// The quantised embedding of `token`, read from the arena.
pub fn embedding_weights(arena: &[u8], w: &LayerWeights, token: u32) -> (r: Vec<Weight>)
    requires
        embedding_source(*w, token) + embedding_blocks(*w) * reference::BLOCK_BYTES
            <= arena@.len(),
    ensures
        r@ == embedding_of(arena@, *w, token),
{
    assert(arena.len() == arena@.len());
    let hidden: usize = w.hidden_size as usize;
    let blocks: u64 = (w.hidden_size as u64 + 31) / 32;
    assert(token * (blocks * 36) >= 0) by (nonlinear_arith)
        requires
            token >= 0,
            blocks >= 0,
    ;
    let src: usize = (w.embedding + token as u64 * (blocks * 36)) as usize;
    let mut out: Vec<Weight> = Vec::new();
    let mut i: usize = 0;
    while i < hidden
        invariant
            i <= hidden,
            hidden == w.hidden_size,
            src == embedding_source(*w, token),
            src + embedding_blocks(*w) * 36 <= arena@.len() <= usize::MAX,
            out@ == embedding_of(arena@, *w, token).take(i as int),
        decreases hidden - i,
    {
        out.push(reference::unpack_weight(arena, src + i / 32 * 36, i % 32));
        i = i + 1;
        assert(out@ =~= embedding_of(arena@, *w, token).take(i as int));
    }
    assert(out@ =~= embedding_of(arena@, *w, token));
    out
}

/// The number at `i` in half precision; `f16c` says that the machine converts.
pub open spec fn half_at(values: Seq<u32>, i: int, f16c: bool) -> int {
    util::narrowed_at(values, i, values.len() as int, f16c)
}

/// Numbers in half precision, two bytes each, least significant first.
pub open spec fn half_bytes(values: Seq<u32>, f16c: bool) -> Seq<u8> {
    Seq::new(
        2 * values.len(),
        |i: int|
            if i % 2 == 0 {
                (half_at(values, i / 2, f16c) % 256) as u8
            } else {
                (half_at(values, i / 2, f16c) / 256) as u8
            },
    )
}

/// Writes the hidden state of position `pos` in half precision; nothing else
/// in the arena changes. `f16c` says that the machine converts.
pub fn store_hidden(
    arena: &mut [u8],
    l: &ArenaLayout,
    w: &LayerWeights,
    pos: u32,
    values: &[u32],
    f16c: bool,
)
    requires
        values@.len() == w.hidden_size,
        hidden_slot(*l, *w, pos) + w.hidden_size * 2 <= old(arena)@.len(),
    ensures
        final(arena)@ == memory::overwritten(
            old(arena)@,
            hidden_slot(*l, *w, pos),
            half_bytes(values@, f16c),
        ),
{
    let ghost start = arena@;
    assert(arena.len() == arena@.len());
    assert(pos * (w.hidden_size * 2) >= 0) by (nonlinear_arith)
        requires
            pos >= 0,
            w.hidden_size >= 0,
    ;
    let at: usize = (l.hidden_ping + pos as u64 * (w.hidden_size as u64 * 2)) as usize;
    let mut halves: Vec<u16> = vec![0u16; values.len()];
    util::f32_slice_to_f16(values, halves.as_mut_slice(), f16c);
    let mut i: usize = 0;
    while i < values.len()
        invariant
            i <= values@.len() == halves@.len(),
            forall|k: int|
                0 <= k < values@.len() ==> #[trigger] halves@[k] == half_at(values@, k, f16c),
            at == hidden_slot(*l, *w, pos),
            values@.len() == w.hidden_size,
            at + 2 * values@.len() <= start.len() <= usize::MAX,
            arena@.len() == start.len(),
            arena@ == memory::overwritten(start, at as int, half_bytes(values@, f16c).take(2 * i)),
        decreases values.len() - i,
    {
        let h: u16 = halves[i];
        assert(h == half_at(values@, i as int, f16c));
        arena[at + 2 * i] = (h % 256) as u8;
        arena[at + 2 * i + 1] = (h / 256) as u8;
        i = i + 1;
        assert(arena@ =~= memory::overwritten(start, at as int, half_bytes(values@, f16c).take(2 * i)));
    }
    assert(half_bytes(values@, f16c).take(2 * i) =~= half_bytes(values@, f16c));
}

/// A hidden state that was written reads back in half precision, and the rest
/// of the arena is untouched.
pub proof fn law_hidden_reads_back(
    arena: Seq<u8>,
    l: ArenaLayout,
    w: LayerWeights,
    pos: u32,
    values: Seq<u32>,
    f16c: bool,
)
    requires
        values.len() == w.hidden_size,
        hidden_slot(l, w, pos) + w.hidden_size * 2 <= arena.len(),
    ensures
        ({
            let at = hidden_slot(l, w, pos);
            let after = memory::overwritten(arena, at, half_bytes(values, f16c));
            &&& forall|i: int|
                0 <= i < values.len() ==> #[trigger] bytes::u16_le(after, at + 2 * i)
                    == half_at(values, i, f16c)
            &&& forall|i: int|
                0 <= i < at || at + 2 * values.len() <= i < arena.len() ==> #[trigger] after[i]
                    == arena[i]
        }),
{
    let at = hidden_slot(l, w, pos);
    let after = memory::overwritten(arena, at, half_bytes(values, f16c));
    assert(pos * (w.hidden_size * 2) >= 0) by (nonlinear_arith)
        requires
            pos >= 0,
            w.hidden_size >= 0,
    ;
    assert forall|i: int| 0 <= i < values.len() implies #[trigger] bytes::u16_le(
        after,
        at + 2 * i,
    ) == half_at(values, i, f16c) by {
        let h = half_at(values, i, f16c);
        util::lemma_narrowed_fits(values[i]);
        assert(after[at + 2 * i] == half_bytes(values, f16c)[2 * i]);
        assert(after[at + 2 * i + 1] == half_bytes(values, f16c)[2 * i + 1]);
        assert(2 * i / 2 == i && (2 * i + 1) / 2 == i);
        assert(0 <= h < 0x1_0000);
    }
}

/// The embedding of a token is its row of the table: where the arena holds a
/// table of numbers in blocks, number `i` of the embedding is unpacked as the
/// one at the token's row and column `i`.
pub proof fn law_embedding_is_a_row(
    arena: Seq<u8>,
    w: LayerWeights,
    numbers: Seq<u16>,
    token: u32,
    i: int,
)
    requires
        w.hidden_size % 32 == 0,
        numbers.len() % 32 == 0,
        w.embedding + quantize::quantized(numbers).len() <= arena.len(),
        arena.subrange(w.embedding as int, w.embedding + quantize::quantized(numbers).len())
            == quantize::quantized(numbers),
        0 <= i < w.hidden_size,
        token * w.hidden_size + i < numbers.len(),
    ensures
        embedding_of(arena, w, token).len() == w.hidden_size,
        embedding_of(arena, w, token)[i] == quantize::weight_of(
            numbers,
            token * w.hidden_size + i,
        ),
{
    let k = token * w.hidden_size + i;
    let q = quantize::quantized(numbers);
    lemma_row_place(w, token, i);
    quantize::law_quantized_unpacks(numbers, k);
    lemma_table_length(numbers, k);
    lemma_block_within(arena, w.embedding as int, q, k / 32 * 36, k % 32);
}

proof fn lemma_table_length(numbers: Seq<u16>, k: int)
    requires
        numbers.len() % 32 == 0,
        0 <= k < numbers.len(),
    ensures
        0 <= k / 32 * 36,
        k / 32 * 36 + 36 <= quantize::quantized(numbers).len(),
{
}

/// What is unpacked from a part of the arena is unpacked from the arena.
proof fn lemma_block_within(arena: Seq<u8>, e: int, q: Seq<u8>, base: int, pos: int)
    requires
        0 <= e,
        e + q.len() <= arena.len(),
        arena.subrange(e, e + q.len()) == q,
        0 <= base,
        base + 36 <= q.len(),
        0 <= pos < 32,
    ensures
        reference::weight_at(arena, e + base, pos) == reference::weight_at(q, base, pos),
{
    let at = e + base;
    assert forall|j: int| 0 <= j < 36 implies #[trigger] arena[at + j] == q[base + j] by {
        assert(arena.subrange(e, e + q.len())[base + j] == arena[e + (base + j)]);
    }
    lemma_same_block(arena, at, q, base, pos);
}

/// A column of a row stands in the block and at the place where the table has it.
proof fn lemma_row_place(w: LayerWeights, token: u32, i: int)
    requires
        w.hidden_size % 32 == 0,
        0 <= i < w.hidden_size,
    ensures
        ({
            let k = token * w.hidden_size + i;
            &&& 0 <= k
            &&& k % 32 == i % 32
            &&& embedding_source(w, token) + i / 32 * 36 == w.embedding + k / 32 * 36
        }),
{
    let h = w.hidden_size as int;
    let b = h / 32;
    let t = token as int;
    let r = t * b;
    assert(0 <= t * h && t * h == 32 * r) by (nonlinear_arith)
        requires
            0 <= t,
            0 <= h,
            h == 32 * b,
            r == t * b,
    ;
    assert(t * (b * 36) == 36 * r) by (nonlinear_arith)
        requires
            r == t * b,
    ;
    assert(embedding_blocks(w) == b);
}

/// Blocks with the same bytes hold the same weights.
proof fn lemma_same_block(a: Seq<u8>, x: int, b: Seq<u8>, y: int, pos: int)
    requires
        0 <= pos < 32,
        forall|j: int| 0 <= j < 36 ==> #[trigger] a[x + j] == b[y + j],
    ensures
        reference::weight_at(a, x, pos) == reference::weight_at(b, y, pos),
{
    let c = 4 + pos / 2;
    let d = 20 + pos / 8;
    assert(a[x + c] == b[y + c]);
    assert(a[x + d] == b[y + d]);
    assert(a[x + 0] == b[y + 0]);
    assert(a[x + 1] == b[y + 1]);
    assert(a[x + 2] == b[y + 2]);
    assert(a[x + 3] == b[y + 3]);
}

/// The hidden states of the positions lie one behind the other, two bytes for
/// each number, from the first buffer on.
pub proof fn law_hidden_states_are_in_order(l: ArenaLayout, w: LayerWeights, pos: u32, next: u32)
    requires
        next == pos + 1,
    ensures
        hidden_slot(l, w, 0) == l.hidden_ping,
        hidden_slot(l, w, next) == hidden_slot(l, w, pos) + 2 * w.hidden_size,
{
    let h = w.hidden_size * 2;
    assert((pos + 1) * h == pos * h + h) by (nonlinear_arith);
}

} // verus!
