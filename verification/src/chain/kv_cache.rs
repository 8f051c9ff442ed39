//! The cache of keys and values.
//!
//! Keys are held as Q4_0 blocks (18 bytes for 32 elements), values as one byte
//! per element, both by layer, head and position.

use vstd::prelude::*;

use crate::chain::error::Error;
use crate::chain::gguf::ModelConfig;
use crate::chain::memory;
use crate::chain::memory::{Arena, Buffer};

verus! {

pub struct KvCache {
    pub k_q4: Buffer,
    pub v_i8: Buffer,
    pub seq_len: u32,
    pub max_seq: u32,
    pub n_layers: u32,
    pub n_kv_heads: u32,
    pub head_dim: u32,
}

/// Bytes of the keys of one head at one position.
pub open spec fn k_bytes(head_dim: u32) -> int {
    head_dim / 32 * 18
}

/// Number of (layer, head, position) triples.
pub open spec fn slots(n_layers: u32, n_kv_heads: u32, max_seq: u32) -> int {
    n_layers * n_kv_heads * max_seq
}

/// Place of a triple among all of them: by layer, then head, then position.
pub open spec fn slot(n_kv_heads: int, max_seq: int, layer: int, head: int, pos: int) -> int {
    (layer * n_kv_heads + head) * max_seq + pos
}

/// Bytes of all keys.
pub open spec fn k_size(c: ModelConfig, max_seq: u32) -> int {
    slots(c.n_layers, c.n_heads_kv, max_seq) * k_bytes(c.head_dim)
}

/// Bytes of all values.
pub open spec fn v_size(c: ModelConfig, max_seq: u32) -> int {
    slots(c.n_layers, c.n_heads_kv, max_seq) * c.head_dim
}

/// The sizes of the two buffers are 64-bit numbers.
pub open spec fn kv_sizes_fit(c: ModelConfig, max_seq: u32) -> bool {
    &&& slots(c.n_layers, c.n_heads_kv, max_seq) <= u64::MAX
    &&& k_size(c, max_seq) <= u64::MAX
    &&& v_size(c, max_seq) <= u64::MAX
}

proof fn lemma_three_factors(a: int, b: int, c: int)
    requires
        0 <= a <= u32::MAX,
        0 <= b <= u32::MAX,
        0 <= c,
    ensures
        0 <= a * b <= u64::MAX,
        0 <= a * b * c,
{
    assert(0 <= a * b <= u64::MAX) by (nonlinear_arith)
        requires
            0 <= a <= u32::MAX,
            0 <= b <= u32::MAX,
    ;
    assert(0 <= a * b * c) by (nonlinear_arith)
        requires
            0 <= a * b,
            0 <= c,
    ;
}

/// Bytes of the key buffer and of the value buffer.
pub fn kv_sizes(c: &ModelConfig, max_seq: u32) -> (r: (u64, u64))
    requires
        kv_sizes_fit(*c, max_seq),
    ensures
        r.0 == k_size(*c, max_seq),
        r.1 == v_size(*c, max_seq),
{
    proof {
        lemma_three_factors(c.n_layers as int, c.n_heads_kv as int, max_seq as int);
    }
    let per_head: u64 = (c.head_dim / 32) as u64 * 18;
    let n: u64 = c.n_layers as u64 * c.n_heads_kv as u64 * max_seq as u64;
    (n * per_head, n * c.head_dim as u64)
}

impl KvCache {
    /// Offset of the keys at a place: `[layer][head][position]`.
    pub open spec fn k_place(&self, layer: int, head: int, pos: int) -> int {
        slot(self.n_kv_heads as int, self.max_seq as int, layer, head, pos) * k_bytes(self.head_dim)
    }

    /// Offset of the values at a place: `[layer][head][position]`.
    pub open spec fn v_place(&self, layer: int, head: int, pos: int) -> int {
        slot(self.n_kv_heads as int, self.max_seq as int, layer, head, pos) * self.head_dim
    }

    /// A place of the cache.
    pub open spec fn has_place(&self, layer: int, head: int, pos: int) -> bool {
        0 <= layer < self.n_layers && 0 <= head < self.n_kv_heads && 0 <= pos < self.max_seq
    }

    /// An empty cache for this model in these buffers.
    pub open spec fn is_empty_for(
        &self,
        c: ModelConfig,
        max_seq: u32,
        k_q4: Buffer,
        v_i8: Buffer,
    ) -> bool {
        &&& self.seq_len == 0
        &&& self.max_seq == max_seq
        &&& self.n_layers == c.n_layers
        &&& self.n_kv_heads == c.n_heads_kv
        &&& self.head_dim == c.head_dim
        &&& self.k_q4 == k_q4
        &&& self.v_i8 == v_i8
    }

    /// An empty cache in the given buffers.
    pub fn in_buffers(c: &ModelConfig, max_seq: u32, k_q4: Buffer, v_i8: Buffer) -> (r: Self)
        ensures
            r.is_empty_for(*c, max_seq, k_q4, v_i8),
    {
        KvCache {
            k_q4,
            v_i8,
            seq_len: 0,
            max_seq,
            n_layers: c.n_layers,
            n_kv_heads: c.n_heads_kv,
            head_dim: c.head_dim,
        }
    }

    /// An empty cache for `max_seq` positions, with its buffers in the arena.
    pub fn new(c: &ModelConfig, max_seq: u32, arena: &mut Arena) -> (r: Result<Self, Error>)
        requires
            old(arena).well_formed(),
            kv_sizes_fit(*c, max_seq),
        ensures
            final(arena).well_formed(),
            final(arena).total() == old(arena).total(),
            ({
                let names = seq!["kv_cache_k"@, "kv_cache_v"@];
                let sizes = seq![k_size(*c, max_seq) as u64, v_size(*c, max_seq) as u64];
                let used = old(arena).used();
                match r {
                    Ok(cache) => {
                        &&& cache.is_empty_for(
                            *c,
                            max_seq,
                            Buffer {
                                offset: memory::start_at(used) as u64,
                                size: sizes[0],
                            },
                            Buffer {
                                offset: memory::start_at(
                                    memory::end_after(used, sizes, 1),
                                ) as u64,
                                size: sizes[1],
                            },
                        )
                        &&& final(arena).used() == memory::end_after(used, sizes, 2)
                        &&& final(arena).used() <= final(arena).total()
                        &&& final(arena)@ == memory::regions_after(
                            old(arena)@,
                            used,
                            names,
                            sizes,
                            2,
                        )
                    },
                    Err(e) => exists|k: int|
                        {
                            &&& #[trigger] memory::first_misfit(
                                used,
                                old(arena).total(),
                                sizes,
                                k,
                            )
                            &&& memory::is_out_of_memory(
                                e,
                                memory::end_after(used, sizes, k as nat),
                                old(arena).total(),
                                sizes[k],
                            )
                            &&& final(arena).used() == memory::end_after(used, sizes, k as nat)
                            &&& final(arena)@ == memory::regions_after(
                                old(arena)@,
                                used,
                                names,
                                sizes,
                                k as nat,
                            )
                        },
                }
            }),
    {
        let (k, v) = kv_sizes(c, max_seq);
        let names: Vec<&'static str> = vec!["kv_cache_k", "kv_cache_v"];
        let sizes: Vec<u64> = vec![k, v];
        assert(sizes@ =~= seq![k_size(*c, max_seq) as u64, v_size(*c, max_seq) as u64]);
        assert(memory::texts(names@) =~= seq!["kv_cache_k"@, "kv_cache_v"@]);
        let ghost used = arena.used();
        match arena.allocate_all(&names, &sizes) {
            Ok(offsets) => {
                assert(memory::end_after(used, sizes@, 0) == used);
                assert(offsets@[0] == memory::start_at(
                    memory::end_after(used, sizes@, 0),
                ));
                assert(offsets@[1] == memory::start_at(
                    memory::end_after(used, sizes@, 1),
                ));
                assert(sizes@.len() == 2);
                assert(memory::end_after(used, sizes@, 2) <= arena.total());
                Ok(
                    Self::in_buffers(
                        c,
                        max_seq,
                        Buffer { offset: offsets[0], size: k },
                        Buffer { offset: offsets[1], size: v },
                    ),
                )
            },
            Err(e) => Err(e),
        }
    }

    /// Offset of the keys: `[layer][head][position]`, whole blocks.
    pub fn k_offset(&self, layer: u32, head: u32, pos: u32) -> (r: u64)
        requires
            layer * self.n_kv_heads + head <= u32::MAX,
            self.k_place(layer as int, head as int, pos as int) <= u64::MAX,
        ensures
            r == self.k_place(layer as int, head as int, pos as int),
    {
        let row: u64 = (layer as u64 * self.n_kv_heads as u64) + head as u64;
        proof {
            lemma_place_fits(row as int, self.max_seq as int, pos as int);
        }
        let block_bytes: u64 = (self.head_dim / 32) as u64 * 18;
        (row * self.max_seq as u64 + pos as u64) * block_bytes
    }

    /// Offset of the values: `[layer][head][position]`.
    pub fn v_offset(&self, layer: u32, head: u32, pos: u32) -> (r: u64)
        requires
            layer * self.n_kv_heads + head <= u32::MAX,
            self.v_place(layer as int, head as int, pos as int) <= u64::MAX,
        ensures
            r == self.v_place(layer as int, head as int, pos as int),
    {
        let row: u64 = (layer as u64 * self.n_kv_heads as u64) + head as u64;
        proof {
            lemma_place_fits(row as int, self.max_seq as int, pos as int);
        }
        (row * self.max_seq as u64 + pos as u64) * self.head_dim as u64
    }

    /// How many positions are left.
    pub fn room(&self) -> (r: u32)
        ensures
            r == if self.seq_len <= self.max_seq {
                self.max_seq - self.seq_len
            } else {
                0
            },
    {
        if self.seq_len <= self.max_seq {
            self.max_seq - self.seq_len
        } else {
            0
        }
    }

    /// Takes the next position, unless the cache is full.
    pub fn advance(&mut self) -> (r: Result<u32, Error>)
        ensures
            match r {
                Ok(pos) => {
                    &&& old(self).seq_len < old(self).max_seq
                    &&& pos == old(self).seq_len
                    &&& *final(self) == (KvCache {
                        seq_len: (old(self).seq_len + 1) as u32,
                        ..*old(self)
                    })
                },
                Err(e) => {
                    &&& old(self).seq_len >= old(self).max_seq
                    &&& e == Error::KvCacheFull(
                        old(self).seq_len as usize,
                        old(self).max_seq as usize,
                    )
                    &&& *final(self) == *old(self)
                },
            },
    {
        if self.seq_len >= self.max_seq {
            return Err(Error::KvCacheFull(self.seq_len as usize, self.max_seq as usize));
        }
        let pos: u32 = self.seq_len;
        self.seq_len = self.seq_len + 1;
        Ok(pos)
    }

    /// Takes the next `n` positions, as far as the cache has room.
    pub fn advance_by(&mut self, n: u32) -> (r: Result<(), Error>)
        ensures
            match r {
                Ok(_) => {
                    &&& n == 0 || old(self).seq_len + n <= old(self).max_seq
                    &&& *final(self) == (KvCache {
                        seq_len: (old(self).seq_len + n) as u32,
                        ..*old(self)
                    })
                },
                Err(e) => {
                    &&& n > 0 && old(self).seq_len + n > old(self).max_seq
                    &&& *final(self) == (KvCache {
                        seq_len: final(self).seq_len,
                        ..*old(self)
                    })
                    &&& final(self).seq_len == if old(self).seq_len <= old(self).max_seq {
                        old(self).max_seq
                    } else {
                        old(self).seq_len
                    }
                    &&& e == Error::KvCacheFull(
                        final(self).seq_len as usize,
                        old(self).max_seq as usize,
                    )
                },
            },
    {
        let ghost first = *self;
        let mut i: u32 = 0;
        while i < n
            invariant
                i <= n,
                first == *old(self),
                first.seq_len + i <= u32::MAX,
                i == 0 || first.seq_len + i <= first.max_seq,
                *self == (KvCache { seq_len: (first.seq_len + i) as u32, ..first }),
            decreases n - i,
        {
            match self.advance() {
                Ok(_) => {},
                Err(e) => {
                    return Err(e);
                },
            }
            i = i + 1;
        }
        Ok(())
    }

    /// The position that the next token takes.
    pub fn position(&self) -> (r: u32)
        ensures
            r == self.seq_len,
    {
        self.seq_len
    }
}

proof fn lemma_place_fits(row: int, max_seq: int, pos: int)
    requires
        0 <= row <= u32::MAX,
        0 <= max_seq <= u32::MAX,
        0 <= pos <= u32::MAX,
    ensures
        0 <= row * max_seq,
        row * max_seq + pos <= u64::MAX,
{
    assert(0 <= row * max_seq <= 0xffff_ffff * 0xffff_ffff) by (nonlinear_arith)
        requires
            0 <= row <= 0xffff_ffff,
            0 <= max_seq <= 0xffff_ffff,
    ;
}

/// Mixed-radix digits determine the number and the other way round.
proof fn lemma_digits(base: int, hi1: int, lo1: int, hi2: int, lo2: int)
    requires
        0 <= lo1 < base,
        0 <= lo2 < base,
        hi1 * base + lo1 == hi2 * base + lo2,
    ensures
        hi1 == hi2,
        lo1 == lo2,
{
    if hi1 < hi2 {
        assert((hi1 + 1) * base <= hi2 * base) by (nonlinear_arith)
            requires
                hi1 + 1 <= hi2,
                base > 0,
        ;
        assert((hi1 + 1) * base == hi1 * base + base) by (nonlinear_arith);
    } else if hi2 < hi1 {
        assert((hi2 + 1) * base <= hi1 * base) by (nonlinear_arith)
            requires
                hi2 + 1 <= hi1,
                base > 0,
        ;
        assert((hi2 + 1) * base == hi2 * base + base) by (nonlinear_arith);
    }
}

/// A digit below its base, on top of a row below the row count, stays below the product.
proof fn lemma_below(base: int, rows: int, hi: int, lo: int)
    requires
        0 <= lo < base,
        0 <= hi < rows,
    ensures
        0 <= hi * base,
        hi * base + lo < rows * base,
{
    assert(0 <= hi * base) by (nonlinear_arith)
        requires
            0 <= hi,
            0 < base,
    ;
    assert((hi + 1) * base <= rows * base) by (nonlinear_arith)
        requires
            hi + 1 <= rows,
            base > 0,
    ;
    assert((hi + 1) * base == hi * base + base) by (nonlinear_arith);
}

/// The keys at any place of the cache lie in the key buffer, and the values at
/// it in the value buffer.
pub proof fn law_places_in_bounds(
    cache: KvCache,
    c: ModelConfig,
    layer: int,
    head: int,
    pos: int,
)
    requires
        cache.n_layers == c.n_layers,
        cache.n_kv_heads == c.n_heads_kv,
        cache.head_dim == c.head_dim,
        cache.has_place(layer, head, pos),
    ensures
        0 <= cache.k_place(layer, head, pos),
        cache.k_place(layer, head, pos) + k_bytes(cache.head_dim) <= k_size(c, cache.max_seq),
        0 <= cache.v_place(layer, head, pos),
        cache.v_place(layer, head, pos) + cache.head_dim <= v_size(c, cache.max_seq),
{
    let n = cache.n_kv_heads as int;
    let m = cache.max_seq as int;
    lemma_below(n, cache.n_layers as int, layer, head);
    lemma_below(m, cache.n_layers * n, layer * n + head, pos);
    let at = slot(n, m, layer, head, pos);
    let all = slots(c.n_layers, c.n_heads_kv, cache.max_seq);
    assert(0 <= at < all);
    assert forall|w: int| w >= 0 implies 0 <= #[trigger] (at * w) && at * w + w <= all * w by {
        assert(0 <= at * w && (at + 1) * w <= all * w) by (nonlinear_arith)
            requires
                0 <= at,
                at + 1 <= all,
                w >= 0,
        ;
        assert((at + 1) * w == at * w + w) by (nonlinear_arith);
    }
    assert(0 <= at * k_bytes(cache.head_dim));
    assert(0 <= at * cache.head_dim);
}

/// No two places of the cache share a byte of keys or of values.
pub proof fn law_places_are_apart(
    cache: KvCache,
    l1: int,
    h1: int,
    p1: int,
    l2: int,
    h2: int,
    p2: int,
)
    requires
        cache.has_place(l1, h1, p1),
        cache.has_place(l2, h2, p2),
        (l1, h1, p1) != (l2, h2, p2),
    ensures
        ({
            let a = cache.k_place(l1, h1, p1);
            let b = cache.k_place(l2, h2, p2);
            let w = k_bytes(cache.head_dim);
            a + w <= b || b + w <= a
        }),
        ({
            let a = cache.v_place(l1, h1, p1);
            let b = cache.v_place(l2, h2, p2);
            let w = cache.head_dim as int;
            a + w <= b || b + w <= a
        }),
{
    let n = cache.n_kv_heads as int;
    let m = cache.max_seq as int;
    let s1 = slot(n, m, l1, h1, p1);
    let s2 = slot(n, m, l2, h2, p2);
    if s1 == s2 {
        lemma_digits(m, l1 * n + h1, p1, l2 * n + h2, p2);
        lemma_digits(n, l1, h1, l2, h2);
    }
    assert forall|w: int| w >= 0 implies #[trigger] (s1 * w) + w <= s2 * w || s2 * w + w <= s1
        * w by {
        if s1 < s2 {
            assert((s1 + 1) * w <= s2 * w) by (nonlinear_arith)
                requires
                    s1 + 1 <= s2,
                    w >= 0,
            ;
            assert((s1 + 1) * w == s1 * w + w) by (nonlinear_arith);
        } else {
            assert((s2 + 1) * w <= s1 * w) by (nonlinear_arith)
                requires
                    s2 + 1 <= s1,
                    w >= 0,
            ;
            assert((s2 + 1) * w == s2 * w + w) by (nonlinear_arith);
        }
    }
    assert(s1 * k_bytes(cache.head_dim) + k_bytes(cache.head_dim) <= s2 * k_bytes(cache.head_dim) || s2
        * k_bytes(cache.head_dim) + k_bytes(cache.head_dim) <= s1 * k_bytes(cache.head_dim));
    assert(s1 * (cache.head_dim as int) + cache.head_dim <= s2 * cache.head_dim || s2 * cache.head_dim
        + cache.head_dim <= s1 * cache.head_dim);
}

} // verus!
