//! What reading a model file comes to: which value stands for which type, which
//! pair of several counts, what an entry of the index says, and which number of
//! the model stands under which key.

use crate::bytes;
use crate::bytes::Scan;
use crate::chain::gguf;
use crate::chain::gguf::{GgufDtype, ModelConfig, TensorModel, ValueModel};
use crate::chain::standard;
use crate::text;
use vstd::prelude::*;

verus! {

/// A value is as wide as its type says, and is read exactly when so many bytes
/// are left: one for a byte and a truth value, four or eight for a number, and
/// four for each item of a list behind its length.
pub proof fn law_values_have_their_width(s: Seq<u8>, pos: int, ty: u32)
    requires
        0 <= pos,
    ensures
        ({
            let r = gguf::scan_value(s, pos, ty);
            let n = bytes::u32_le(s, pos);
            &&& ty == 1 || ty == 26 ==> (r is Got <==> pos + 1 <= s.len())
            &&& ty == 4 || ty == 7 || ty == 22 ==> (r is Got <==> pos + 4 <= s.len())
            &&& ty == 5 || ty == 8 || ty == 23 ==> (r is Got <==> pos + 8 <= s.len())
            &&& ty == 13 ==> (r is Got <==> pos + 4 <= s.len() && pos + 4 + 4 * n <= s.len())
            &&& r is Got ==> r->Got_1 == pos + if ty == 1 || ty == 26 {
                1int
            } else if ty == 4 || ty == 7 || ty == 22 {
                4
            } else if ty == 5 || ty == 8 || ty == 23 {
                8
            } else {
                4 + 4 * n
            }
            &&& ty == 0 || ty == 2 || ty == 3 || ty == 6 || 9 <= ty <= 12 || 14 <= ty <= 21 || ty
                == 24 || ty == 25 || ty > 26 ==> r is Bad
        }),
{
}

/// A value is what its bytes say.
pub proof fn law_values_are_read(s: Seq<u8>, pos: int, ty: u32, i: int)
    requires
        0 <= pos,
        gguf::scan_value(s, pos, ty) is Got,
    ensures
        ({
            let v = gguf::scan_value(s, pos, ty)->Got_0;
            let w = bytes::u32_le(s, pos);
            let d = bytes::u64_le(s, pos);
            &&& ty == 1 ==> v == ValueModel::U8(s[pos])
            &&& ty == 4 ==> v == ValueModel::U32(w)
            &&& ty == 5 ==> v == ValueModel::U64(d)
            &&& ty == 7 ==> (v matches ValueModel::I32(x) && x as u32 == w)
            &&& ty == 8 ==> (v matches ValueModel::I64(x) && x as u64 == d)
            &&& ty == 22 ==> v == ValueModel::F32(w)
            &&& ty == 23 ==> v == ValueModel::F64(d)
            &&& ty == 26 ==> v == ValueModel::Bool(s[pos] > 0)
            &&& ty == 13 ==> (v matches ValueModel::ArrayU32(x) && x.len() == w && (0 <= i < w
                ==> x[i] == bytes::u32_le(s, pos + 4 + 4 * i)))
        }),
{
    let w = bytes::u32_le(s, pos);
    assert((w as i32) as u32 == w) by (bit_vector);
    let d = bytes::u64_le(s, pos);
    assert((d as i64) as u64 == d) by (bit_vector);
}

/// Where pair `i` of the metadata at `start` stands.
pub open spec fn pair_start(s: Seq<u8>, start: int, i: int) -> int
    decreases i,
{
    if i <= 0 {
        start
    } else {
        gguf::scan_pair(s, pair_start(s, start, i - 1))->Got_1
    }
}

/// The key of pair `i`.
pub open spec fn key_of(s: Seq<u8>, start: int, i: int) -> Seq<char> {
    let at = pair_start(s, start, i);
    text::lossy_text(s.subrange(at + 8, at + 8 + bytes::u64_le(s, at)))
}

/// The value of pair `i`: behind the key stand the number of a type and a value
/// of that type.
pub open spec fn value_of(s: Seq<u8>, start: int, i: int) -> ValueModel {
    let at = pair_start(s, start, i);
    let p = at + 8 + bytes::u64_le(s, at);
    gguf::scan_value(s, p + 4, bytes::u32_le(s, p))->Got_0
}

/// No pair behind pair `i` has its key.
pub open spec fn is_last_of_key(s: Seq<u8>, start: int, n: int, i: int) -> bool {
    forall|j: int| i < j < n ==> #[trigger] key_of(s, start, j) != key_of(s, start, i)
}

/// The metadata hold the key of every pair, with the value of the last pair that
/// has it, and no other key.
pub proof fn law_last_pair_counts(s: Seq<u8>, start: int, n: nat, i: int)
    requires
        gguf::scan_pairs(s, start, n) is Got,
        0 <= i < n,
    ensures
        ({
            let m = gguf::scan_pairs(s, start, n)->Got_0;
            &&& m.contains_key(key_of(s, start, i))
            &&& is_last_of_key(s, start, n as int, i) ==> m[key_of(s, start, i)] == value_of(
                s,
                start,
                i,
            )
            &&& forall|k: Seq<char>| #[trigger]
                m.contains_key(k) ==> exists|j: int|
                    0 <= j < n && k == #[trigger] key_of(s, start, j)
            &&& gguf::scan_pairs(s, start, n)->Got_1 == pair_start(s, start, n as int)
        }),
    decreases n,
{
    lemma_pairs_end(s, start, n);
    let b = (n - 1) as nat;
    lemma_pairs_end(s, start, b);
    let before = gguf::scan_pairs(s, start, b)->Got_0;
    let m = gguf::scan_pairs(s, start, n)->Got_0;
    if b > 0 {
        law_last_pair_counts(s, start, b, if i < b {
            i
        } else {
            0
        });
    }
    let last = key_of(s, start, b as int);
    assert(m == before.insert(last, value_of(s, start, b as int)));
    assert forall|k: Seq<char>| #[trigger] m.contains_key(k) implies exists|j: int|
        0 <= j < n && k == #[trigger] key_of(s, start, j) by {
        if k != last {
            assert(before.contains_key(k));
            let j = choose|j: int| 0 <= j < b && k == #[trigger] key_of(s, start, j);
            assert(0 <= j < n && k == key_of(s, start, j));
        }
    }
    if i < b && is_last_of_key(s, start, n as int, i) {
        assert(last != key_of(s, start, i));
        assert(is_last_of_key(s, start, b as int, i));
    }
}

proof fn lemma_pairs_end(s: Seq<u8>, start: int, n: nat)
    requires
        gguf::scan_pairs(s, start, n) is Got,
    ensures
        gguf::scan_pairs(s, start, n)->Got_1 == pair_start(s, start, n as int),
        n == 0 ==> gguf::scan_pairs(s, start, n)->Got_0 == Map::<Seq<char>, ValueModel>::empty(),
    decreases n,
{
    if n > 0 {
        lemma_pairs_end(s, start, (n - 1) as nat);
    }
}

/// Where entry `i` of the index at `start` stands: behind a name, the number of
/// its dimensions, they themselves, its type and its offset.
pub open spec fn entry_start(s: Seq<u8>, start: int, i: int) -> int
    decreases i,
{
    if i <= 0 {
        start
    } else {
        let at = entry_start(s, start, i - 1);
        let p = at + 8 + bytes::u64_le(s, at);
        p + 4 + 8 * bytes::u32_le(s, p) + 12
    }
}

/// The product of the first `n` numbers.
pub open spec fn product_of(v: Seq<u64>, n: int) -> int
    decreases n,
{
    if n <= 0 {
        1
    } else {
        product_of(v, n - 1) * v[n - 1]
    }
}

/// A tensor is what its entry at `off` says.
pub open spec fn is_entry(s: Seq<u8>, off: int, t: TensorModel) -> bool {
    let p = off + 8 + bytes::u64_le(s, off);
    let n = bytes::u32_le(s, p);
    let q = p + 4 + 8 * n;
    let code = bytes::u32_le(s, q);
    &&& t.name == text::lossy_text(s.subrange(off + 8, p))
    &&& t.shape.len() == n
    &&& forall|i: int| 0 <= i < n ==> #[trigger] t.shape[i] == bytes::u64_le(s, p + 4 + 8 * i)
    &&& t.offset == bytes::u64_le(s, q + 4)
    &&& code == 0 ==> t.dtype is F32
    &&& code == 1 ==> t.dtype is F16
    &&& code == 2 ==> t.dtype is Q4_0
    &&& code == 8 ==> t.dtype is Q8_0
    &&& code != 0 && code != 1 && code != 2 && code != 8 ==> t.dtype == GgufDtype::Unknown(code)
    &&& t.n_elements <= product_of(t.shape, n as int) || t.n_elements == u64::MAX
    &&& product_of(t.shape, n as int) < u64::MAX && (forall|i: int|
        0 <= i < n ==> #[trigger] t.shape[i] > 0) ==> t.n_elements == product_of(t.shape, n as int)
}

proof fn lemma_count(v: Seq<u64>, n: int)
    requires
        0 <= n <= v.len(),
    ensures
        0 <= product_of(v, n),
        gguf::element_count(v.take(n)) <= product_of(v, n) || gguf::element_count(v.take(n))
            == u64::MAX,
        (forall|i: int| 0 <= i < n ==> #[trigger] v[i] > 0) ==> product_of(v, n) >= 1 && (
        product_of(v, n) < u64::MAX ==> gguf::element_count(v.take(n)) == product_of(v, n)),
    decreases n,
{
    if n > 0 {
        lemma_count(v, n - 1);
        assert(v.take(n).drop_last() =~= v.take(n - 1));
        let a = product_of(v, n - 1);
        let c = gguf::element_count(v.take(n - 1)) as int;
        let b = v[n - 1] as int;
        assert(v.take(n).last() == b);
        assert(0 <= a * b) by (nonlinear_arith)
            requires
                0 <= a,
                0 <= b,
        ;
        assert(c <= a ==> c * b <= a * b) by (nonlinear_arith)
            requires
                0 <= b,
        ;
        assert(b >= 1 ==> a * b >= a) by (nonlinear_arith)
            requires
                0 <= a,
        ;
        assert(b >= 1 ==> c * b >= c) by (nonlinear_arith)
            requires
                0 <= c,
        ;
        assert(b == 0 ==> c * b == 0) by (nonlinear_arith);
    }
}

proof fn lemma_entry(s: Seq<u8>, pos: int)
    requires
        gguf::scan_tensor(s, pos) is Got,
    ensures
        is_entry(s, pos, gguf::scan_tensor(s, pos)->Got_0),
        ({
            let p = pos + 8 + bytes::u64_le(s, pos);
            gguf::scan_tensor(s, pos)->Got_1 == p + 4 + 8 * bytes::u32_le(s, p) + 12
        }),
{
    let t = gguf::scan_tensor(s, pos)->Got_0;
    lemma_count(t.shape, t.shape.len() as int);
    assert(t.shape.take(t.shape.len() as int) =~= t.shape);
}

proof fn lemma_entries(s: Seq<u8>, start: int, n: nat, i: int)
    requires
        gguf::scan_tensors(s, start, n) is Got,
    ensures
        ({
            let ts = gguf::scan_tensors(s, start, n)->Got_0;
            &&& ts.len() == n
            &&& 0 <= i < n ==> is_entry(s, entry_start(s, start, i), ts[i])
            &&& gguf::scan_tensors(s, start, n)->Got_1 == entry_start(s, start, n as int)
        }),
    decreases n,
{
    if n > 0 {
        lemma_entries(s, start, (n - 1) as nat, i);
        let p = gguf::scan_tensors(s, start, (n - 1) as nat)->Got_1;
        lemma_entry(s, p);
    }
}

/// The tensors of an index are what its entries say, one after the other. Their
/// sizes are not in the file: each reaches to the next one.
pub proof fn law_entries_are_read(
    s: Seq<u8>,
    start: int,
    m: Map<Seq<char>, ValueModel>,
    i: int,
)
    requires
        gguf::scan_index(s, start, m) is Ok,
        0 <= i < bytes::u64_le(s, 8),
    ensures
        ({
            let f = gguf::scan_index(s, start, m)->Ok_0;
            &&& f.metadata == m
            &&& f.tensors.len() == bytes::u64_le(s, 8)
            &&& is_entry(s, entry_start(s, start, i), f.tensors[i])
        }),
{
    let n = bytes::u64_le(s, 8) as nat;
    lemma_entries(s, start, n, i);
    let ts = gguf::scan_tensors(s, start, n)->Got_0;
    let t = gguf::with_sizes(ts, s.len() as int)[i];
    assert(t.shape == ts[i].shape);
}

/// A file is read by the library's own numbers for the types of values where
/// that can be done, and else by those of GGUF; without the magic and version
/// three it is not read at all.
pub proof fn law_two_numberings(s: Seq<u8>)
    ensures
        gguf::scan_file(s) is Ok ==> s.len() >= 24 && s[0] == 71 && s[1] == 71 && s[2] == 85 && s[3]
            == 70 && bytes::u32_le(s, 4) == 3,
        s.len() >= 24 && s[0] == 71 && s[1] == 71 && s[2] == 85 && s[3] == 70 && bytes::u32_le(s, 4)
            == 3 ==> {
            &&& gguf::scan_body(s) is Ok ==> gguf::scan_file(s) == gguf::scan_body(s)
            &&& gguf::scan_body(s) is Err && gguf::scan_standard_body(s) is Ok ==> gguf::scan_file(
                s,
            ) == gguf::scan_standard_body(s)
            &&& gguf::scan_body(s) is Err && gguf::scan_standard_body(s) is Err ==> gguf::scan_file(
                s,
            ) == gguf::scan_body(s)
        },
{
}

/// Under this key the metadata hold this number.
pub open spec fn says(m: Map<Seq<char>, ValueModel>, key: Seq<char>, v: u32) -> bool {
    m.contains_key(key) && m[key] == ValueModel::U32(v)
}

/// The model has the numbers under its keys; a head is as wide as the hidden
/// state divided by the heads.
pub proof fn law_config_has_the_numbers(m: Map<Seq<char>, ValueModel>, c: ModelConfig)
    requires
        gguf::config_fault(m) is None,
        gguf::describes(m, c),
    ensures
        says(m, "qwen3.block_count"@, c.n_layers),
        says(m, "qwen3.embedding_length"@, c.hidden_dim),
        says(m, "qwen3.attention.head_count"@, c.n_heads_q),
        says(m, "qwen3.attention.head_count_kv"@, c.n_heads_kv),
        says(m, "qwen3.feed_forward_length"@, c.ffn_intermediate),
        says(m, "qwen3.vocab_size"@, c.vocab_size),
        c.n_heads_q > 0,
        c.head_dim * c.n_heads_q <= c.hidden_dim < (c.head_dim + 1) * c.n_heads_q,
{
    let a = c.hidden_dim as int;
    let b = c.n_heads_q as int;
    let q = a / b;
    assert(q * b <= a < (q + 1) * b) by (nonlinear_arith)
        requires
            q == a / b,
            b > 0,
    ;
}

/// What the metadata may leave out: one expert, one active, none shared, a
/// context of 32768, a rotation base of a million and of the usual kind, no
/// further heads, and an epsilon of a millionth. What they hold counts.
pub proof fn law_config_has_defaults(m: Map<Seq<char>, ValueModel>, c: ModelConfig, v: u32)
    requires
        gguf::config_fault(m) is None,
        gguf::describes(m, c),
    ensures
        says(m, "qwen3.expert_count"@, v) ==> c.n_experts == v,
        !m.contains_key("qwen3.expert_count"@) ==> c.n_experts == 1,
        says(m, "qwen3.expert_used_count"@, v) ==> c.n_active_experts == v,
        !m.contains_key("qwen3.expert_used_count"@) ==> c.n_active_experts == 1,
        says(m, "qwen3.expert_shared_count"@, v) ==> c.n_shared_experts == v,
        !m.contains_key("qwen3.expert_shared_count"@) ==> c.n_shared_experts == 0,
        says(m, "qwen3.context_length"@, v) ==> c.max_seq_len == v,
        !m.contains_key("qwen3.context_length"@) ==> c.max_seq_len == 32768,
        says(m, "qwen3.mtp.module_count"@, v) ==> c.n_mtp_modules == v,
        !m.contains_key("qwen3.mtp.module_count"@) ==> c.n_mtp_modules == 0,
        says(m, "qwen3.mtp.depth"@, v) ==> c.mtp_depth == v,
        !m.contains_key("qwen3.mtp.depth"@) ==> c.mtp_depth == 0,
        m.contains_key("qwen3.rope.freq_base"@) && m["qwen3.rope.freq_base"@] == ValueModel::F32(v)
            ==> c.rope_theta_bits == v,
        !m.contains_key("qwen3.rope.freq_base"@) ==> c.rope_theta_bits == 0x4974_2400,
        m.contains_key("qwen3.attention.layer_norm_rms_epsilon"@)
            && m["qwen3.attention.layer_norm_rms_epsilon"@] == ValueModel::F32(v) ==> c.eps_bits
            == v,
        !m.contains_key("qwen3.attention.layer_norm_rms_epsilon"@) ==> c.eps_bits == 0x3586_37bd,
        m.contains_key("qwen3.rope.type"@) && m["qwen3.rope.type"@] is Text ==> c.rope_type@
            == m["qwen3.rope.type"@]->Text_0,
        !m.contains_key("qwen3.rope.type"@) ==> c.rope_type@ == "default"@,
{
}

/// By GGUF's numbers a value is as wide as its type, a list is as long as its
/// items, and a list of texts, a list of arrays and other lists that are not
/// kept leave no value.
pub proof fn law_standard_values(s: Seq<u8>, pos: int, ty: u32)
    requires
        0 <= pos,
    ensures
        ({
            let r = standard::scan_value(s, pos, ty);
            let w = bytes::u32_le(s, pos);
            let d = bytes::u64_le(s, pos);
            &&& ty == 0 && pos < s.len() ==> r == Some((Some(ValueModel::U8(s[pos])), pos + 1))
            &&& ty == 7 && pos < s.len() ==> r == Some((Some(ValueModel::Bool(s[pos] > 0)), pos + 1))
            &&& ty == 4 && pos + 4 <= s.len() ==> r == Some((Some(ValueModel::U32(w)), pos + 4))
            &&& ty == 6 && pos + 4 <= s.len() ==> r == Some((Some(ValueModel::F32(w)), pos + 4))
            &&& ty == 10 && pos + 8 <= s.len() ==> r == Some((Some(ValueModel::U64(d)), pos + 8))
            &&& ty == 12 && pos + 8 <= s.len() ==> r == Some((Some(ValueModel::F64(d)), pos + 8))
            &&& ty == 1 && pos < s.len() ==> (r matches Some((Some(ValueModel::I32(x)), p)) && p
                == pos + 1 && x == if s[pos] < 128 {
                s[pos] as int
            } else {
                s[pos] - 256
            })
            &&& ty == 2 && pos + 2 <= s.len() ==> (r matches Some((Some(ValueModel::U32(x)), p)) && p
                == pos + 2 && x == s[pos] + 256 * s[pos + 1])
            &&& ty == 5 && pos + 4 <= s.len() ==> (r matches Some((Some(ValueModel::I32(x)), p)) && p
                == pos + 4 && x as u32 == w)
            &&& ty == 11 && pos + 8 <= s.len() ==> (r matches Some((Some(ValueModel::I64(x)), p))
                && p == pos + 8 && x as u64 == d)
            &&& ty > 12 ==> r is None
        }),
{
    let w = bytes::u32_le(s, pos);
    assert((w as i32) as u32 == w) by (bit_vector);
    let d = bytes::u64_le(s, pos);
    assert((d as i64) as u64 == d) by (bit_vector);
    let b = s[pos];
    assert(b as i8 as i32 == if b < 128 {
        b as int
    } else {
        b - 256
    }) by (bit_vector);
}

} // verus!
