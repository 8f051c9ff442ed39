//! What reading a model file comes to: which values are stepped over and which
//! are taken, which pair of several counts, and where the parts of a file lie.

use crate::align;
use crate::bytes;
use crate::bytes::Scan;
use crate::gguf;
use crate::gguf::{GgmlType, MetaModel, ModelConfig};
use crate::text;
use vstd::prelude::*;

verus! {

/// At `off` stands a text: its length in eight bytes, and then so many bytes in
/// UTF-8, all of them in the file.
pub open spec fn is_text_at(s: Seq<u8>, off: int) -> bool {
    let end = off + 8 + bytes::u64_le(s, off);
    &&& 0 <= off
    &&& off + 8 <= s.len()
    &&& end <= s.len()
    &&& vstd::utf8::valid_utf8(s.subrange(off + 8, end))
}

/// Values of the types that are not used are stepped over: one byte for those
/// of eight bits, two for those of sixteen, four for a truth value, and eight
/// for a double. A zero takes their place.
pub proof fn law_unused_values_are_stepped_over(s: Seq<u8>, off: int, ty: u32)
    requires
        0 <= off,
        off + 8 <= u64::MAX,
    ensures
        ({
            let zero = MetaModel::Uint32(0);
            let r = gguf::scan_value(s, off, ty);
            &&& ty == 0 || ty == 1 ==> r == Scan::Got(zero, off + 1)
            &&& ty == 2 || ty == 3 ==> r == Scan::Got(zero, off + 2)
            &&& ty == 7 ==> r == Scan::Got(zero, off + 4)
            &&& ty == 12 ==> r == Scan::Got(zero, off + 8)
            &&& ty > 12 ==> r is Bad
        }),
{
}

/// A number whose bytes are all in the file is read, and so is a text; one that
/// is cut off is not.
pub proof fn law_whole_values_are_taken(s: Seq<u8>, off: int, ty: u32)
    requires
        0 <= off,
    ensures
        4 <= ty <= 6 ==> (gguf::scan_value(s, off, ty) is Got <==> off + 4 <= s.len()),
        10 <= ty <= 11 ==> (gguf::scan_value(s, off, ty) is Got <==> off + 8 <= s.len()),
        ty == 8 ==> (gguf::scan_value(s, off, ty) is Got <==> is_text_at(s, off)),
{
}

/// Where item `i` of a list of values of one type stands.
pub open spec fn item_start(s: Seq<u8>, start: int, ty: u32, i: int) -> int
    decreases i,
{
    if i <= 0 {
        start
    } else {
        gguf::scan_value(s, item_start(s, start, ty, i - 1), ty)->Got_1
    }
}

/// A list is its items one after the other: behind the type of the items and
/// their number stands each where the one before it ends.
pub proof fn law_lists_are_read(s: Seq<u8>, off: int, i: int)
    requires
        0 <= off,
        gguf::scan_value(s, off, 9) is Got,
        0 <= i < bytes::u64_le(s, off + 4),
    ensures
        ({
            let ty = bytes::u32_le(s, off);
            let n = bytes::u64_le(s, off + 4);
            let v = gguf::scan_value(s, off, 9)->Got_0;
            &&& v is Array
            &&& v->Array_0.len() == n
            &&& gguf::scan_value(s, item_start(s, off + 12, ty, i), ty) is Got
            &&& v->Array_0[i] == gguf::scan_value(s, item_start(s, off + 12, ty, i), ty)->Got_0
            &&& gguf::scan_value(s, off, 9)->Got_1 == item_start(s, off + 12, ty, n as int)
        }),
{
    let ty = bytes::u32_le(s, off);
    let n = bytes::u64_le(s, off + 4) as nat;
    lemma_items(s, off + 12, off + 12, ty, n, Seq::empty(), i);
}

proof fn lemma_items(
    s: Seq<u8>,
    start: int,
    off: int,
    ty: u32,
    n: nat,
    done: Seq<MetaModel>,
    i: int,
)
    requires
        off == item_start(s, start, ty, done.len() as int),
        gguf::scan_items(s, off, ty, n, done) is Got,
        0 <= i < done.len() + n,
        i < done.len() ==> gguf::scan_value(s, item_start(s, start, ty, i), ty) == Scan::Got(
            done[i],
            gguf::scan_value(s, item_start(s, start, ty, i), ty)->Got_1,
        ),
    ensures
        ({
            let vs = gguf::scan_items(s, off, ty, n, done)->Got_0;
            let at = item_start(s, start, ty, i);
            &&& vs.len() == done.len() + n
            &&& gguf::scan_value(s, at, ty) is Got
            &&& vs[i] == gguf::scan_value(s, at, ty)->Got_0
            &&& gguf::scan_items(s, off, ty, n, done)->Got_1 == item_start(
                s,
                start,
                ty,
                (done.len() + n) as int,
            )
        }),
    decreases n,
{
    if n > 0 {
        let v = gguf::scan_value(s, off, ty)->Got_0;
        let p = gguf::scan_value(s, off, ty)->Got_1;
        lemma_items(s, start, p, ty, (n - 1) as nat, done.push(v), i);
    }
}

/// Where pair `i` of the metadata at `start` stands.
pub open spec fn pair_start(s: Seq<u8>, start: int, i: int) -> int
    decreases i,
{
    if i <= 0 {
        start
    } else {
        gguf::scan_pair(s, pair_start(s, start, i - 1))->Got_1
    }
}

/// The key of pair `i`.
pub open spec fn key_of(s: Seq<u8>, start: int, i: int) -> Seq<char> {
    let at = pair_start(s, start, i);
    vstd::utf8::decode_utf8(s.subrange(at + 8, at + 8 + bytes::u64_le(s, at)))
}

/// The value of pair `i`: behind the key stand the number of a type and a value
/// of that type.
pub open spec fn value_of(s: Seq<u8>, start: int, i: int) -> MetaModel {
    let at = pair_start(s, start, i);
    let p = at + 8 + bytes::u64_le(s, at);
    gguf::scan_value(s, p + 4, bytes::u32_le(s, p))->Got_0
}

/// No pair behind pair `i` has its key.
pub open spec fn is_last_of_key(s: Seq<u8>, start: int, n: int, i: int) -> bool {
    forall|j: int| i < j < n ==> #[trigger] key_of(s, start, j) != key_of(s, start, i)
}

/// The metadata hold the key of every pair, with the value of the last pair that
/// has it, and no other key.
pub proof fn law_last_pair_counts(s: Seq<u8>, start: int, n: nat, i: int)
    requires
        gguf::scan_pairs(s, start, n, Map::empty()) is Got,
        0 <= i < n,
    ensures
        ({
            let m = gguf::scan_pairs(s, start, n, Map::empty())->Got_0;
            &&& m.contains_key(key_of(s, start, i))
            &&& is_last_of_key(s, start, n as int, i) ==> m[key_of(s, start, i)] == value_of(
                s,
                start,
                i,
            )
            &&& forall|k: Seq<char>| #[trigger]
                m.contains_key(k) ==> exists|j: int|
                    0 <= j < n && k == #[trigger] key_of(s, start, j)
            &&& gguf::scan_pairs(s, start, n, Map::empty())->Got_1 == pair_start(
                s,
                start,
                n as int,
            )
        }),
{
    lemma_pairs(s, start, start, n, 0, Map::empty(), i);
}

proof fn lemma_pairs(
    s: Seq<u8>,
    start: int,
    off: int,
    n: nat,
    d: nat,
    done: Map<Seq<char>, MetaModel>,
    i: int,
)
    requires
        off == pair_start(s, start, d as int),
        gguf::scan_pairs(s, off, n, done) is Got,
        0 <= i < d + n,
        i < d ==> done.contains_key(key_of(s, start, i)) && (is_last_of_key(s, start, d as int, i)
            ==> done[key_of(s, start, i)] == value_of(s, start, i)),
        forall|k: Seq<char>| #[trigger]
            done.contains_key(k) ==> exists|j: int| 0 <= j < d && k == #[trigger] key_of(s, start, j),
    ensures
        ({
            let m = gguf::scan_pairs(s, off, n, done)->Got_0;
            let all = (d + n) as int;
            &&& m.contains_key(key_of(s, start, i))
            &&& is_last_of_key(s, start, all, i) ==> m[key_of(s, start, i)] == value_of(s, start, i)
            &&& forall|k: Seq<char>| #[trigger]
                m.contains_key(k) ==> exists|j: int|
                    0 <= j < all && k == #[trigger] key_of(s, start, j)
            &&& gguf::scan_pairs(s, off, n, done)->Got_1 == pair_start(s, start, all)
        }),
    decreases n,
{
    if n > 0 {
        let kv = gguf::scan_pair(s, off)->Got_0;
        let p = gguf::scan_pair(s, off)->Got_1;
        let next = done.insert(kv.0, kv.1);
        assert(kv.0 == key_of(s, start, d as int));
        assert(kv.1 == value_of(s, start, d as int));
        let e: nat = d + 1;
        assert(e - 1 == d);
        assert forall|k: Seq<char>| #[trigger] next.contains_key(k) implies exists|j: int|
            0 <= j < e && k == #[trigger] key_of(s, start, j) by {
            if k != kv.0 {
                assert(done.contains_key(k));
                let j = choose|j: int| 0 <= j < d && k == #[trigger] key_of(s, start, j);
                assert(0 <= j < e && k == key_of(s, start, j));
            }
        }
        if i < d && is_last_of_key(s, start, e as int, i) {
            assert(key_of(s, start, d as int) != key_of(s, start, i));
            assert(is_last_of_key(s, start, d as int, i));
        }
        lemma_pairs(s, start, p, (n - 1) as nat, e, next, i);
    }
}

/// A file that is read has four bytes of magic, a version, the number of its
/// tensors in eight bytes, the number of its pairs in eight, the pairs from byte
/// 24 on, the entries of the index behind them, and its data at the next
/// multiple of 32.
pub proof fn law_parts_of_a_file(s: Seq<u8>)
    requires
        gguf::scan_file(s) is Ok,
    ensures
        ({
            let m = gguf::scan_file(s)->Ok_0;
            let pairs = bytes::u64_le(s, 16);
            let index = pair_start(s, 24, pairs as int);
            let end = gguf::entry_start(s, index, m.tensor_count as int);
            &&& m.tensor_count == bytes::u64_le(s, 8)
            &&& gguf::scan_pairs(s, 24, pairs as nat, Map::empty()) == Scan::Got(m.metadata, index)
            &&& pairs == 0 ==> m.metadata == Map::<Seq<char>, MetaModel>::empty()
            &&& m.tensors.len() == m.tensor_count
            &&& forall|i: int|
                0 <= i < m.tensor_count ==> gguf::is_entry(
                    s,
                    gguf::entry_start(s, index, i),
                    #[trigger] m.tensors[i],
                )
            &&& end <= m.tensor_data_offset < end + 32
            &&& m.tensor_data_offset % 32 == 0
        }),
{
    let m = gguf::scan_file(s)->Ok_0;
    let pairs = bytes::u64_le(s, 16) as nat;
    let scanned = gguf::scan_pairs(s, 24, pairs, Map::empty());
    let index = scanned->Got_1;
    gguf::lemma_pairs_go_forward(s, 24, pairs, Map::empty());
    if pairs > 0 {
        law_last_pair_counts(s, 24, pairs, 0);
    }
    let n = m.tensor_count as nat;
    let tensors = gguf::scan_tensors(s, index, n, Seq::empty());
    gguf::law_all_tensors_are_read(s);
    assert forall|i: int| 0 <= i < n implies gguf::is_entry(
        s,
        gguf::entry_start(s, index, i),
        #[trigger] m.tensors[i],
    ) by {
        gguf::law_entries_are_read(s, index, n, i);
    }
    if n > 0 {
        gguf::law_entries_are_read(s, index, n, 0);
    }
    gguf::lemma_tensors_go_forward(s, index, n, Seq::empty());
    align::lemma_round_up(tensors->Got_1, 32);
}

/// A file of version two or three with the letters GGUF in front, whose pairs
/// and entries are all whole, is read, and no other.
pub proof fn law_whole_files_are_taken(s: Seq<u8>)
    ensures
        gguf::scan_file(s) is Ok <==> {
            let pairs = gguf::scan_pairs(s, 24, bytes::u64_le(s, 16) as nat, Map::empty());
            let index = gguf::scan_tensors(
                s,
                pairs->Got_1,
                bytes::u64_le(s, 8) as nat,
                Seq::empty(),
            );
            &&& 24 <= s.len()
            &&& s[0] == 71 && s[1] == 71 && s[2] == 85 && s[3] == 70
            &&& bytes::u32_le(s, 4) == 2 || bytes::u32_le(s, 4) == 3
            &&& pairs is Got
            &&& index is Got
            &&& index->Got_1 + 31 <= u64::MAX
        },
{
    if s.len() >= 24 {
        let magic = s.subrange(0, 4);
        assert(magic[0] == s[0] && magic[1] == s[1] && magic[2] == s[2] && magic[3] == s[3]);
        if s[0] == 71 && s[1] == 71 && s[2] == 85 && s[3] == 70 {
            assert(magic =~= seq![0x47u8, 0x47, 0x55, 0x46]);
        }
    }
}

/// The number of a type that is known.
pub open spec fn is_known_code(code: u32) -> bool {
    code <= 3 || 6 <= code <= 15 || code == 30
}

/// Every product of the first dimensions is below two to the forty-eighth.
pub open spec fn are_small(dims: Seq<u64>) -> bool {
    forall|k: int|
        0 <= k <= dims.len() ==> gguf::product_of(#[trigger] dims.take(k)) < 0x1_0000_0000_0000
}

proof fn lemma_small_count(dims: Seq<u64>, k: int)
    requires
        are_small(dims),
        0 <= k <= dims.len(),
    ensures
        gguf::weight_count(dims.take(k)) is Some,
        gguf::weight_count(dims.take(k))->0 == gguf::product_of(dims.take(k)),
    decreases k,
{
    if k > 0 {
        lemma_small_count(dims, k - 1);
        assert(dims.take(k).drop_last() =~= dims.take(k - 1));
        assert(gguf::product_of(dims.take(k)) < 0x1_0000_0000_0000);
    }
}

/// An entry of the index that is whole, names a known type and has dimensions
/// of a size that can be is read; one of an unknown type is not.
pub proof fn law_whole_entries_are_taken(s: Seq<u8>, off: int)
    requires
        is_text_at(s, off),
        off + 8 + bytes::u64_le(s, off) + 4 <= s.len(),
        gguf::type_at(s, off) + 12 <= s.len(),
        are_small(gguf::dims_at(s, off)),
    ensures
        gguf::scan_tensor(s, off) is Got <==> is_known_code(
            bytes::u32_le(s, gguf::type_at(s, off)),
        ),
{
    let p = off + 8 + bytes::u64_le(s, off);
    let n = bytes::u32_le(s, p) as int;
    let dims = Seq::new(n as nat, |i: int| bytes::u64_le(s, p + 4 + 8 * i));
    assert(dims =~= gguf::dims_at(s, off));
    assert(dims.take(dims.len() as int) =~= dims);
    lemma_small_count(dims, dims.len() as int);
    let code = bytes::u32_le(s, gguf::type_at(s, off));
    let w = gguf::weight_count(dims)->0 as int;
    lemma_known(code);
    if gguf::type_of(code) is Some {
        let t = gguf::type_of(code)->0;
        let per = t.weights_per_block() as int;
        let b = t.bytes_per_block() as int;
        let blocks = (w + per - 1) / per;
        assert(0 <= blocks <= w + 255) by (nonlinear_arith)
            requires
                blocks == (w + per - 1) / per,
                1 <= per <= 256,
                w >= 0,
        ;
        assert(blocks * b <= (w + 255) * 256) by (nonlinear_arith)
            requires
                0 <= blocks <= w + 255,
                0 <= b <= 256,
        ;
    }
}

proof fn lemma_known(code: u32)
    ensures
        gguf::type_of(code) is Some <==> is_known_code(code),
{
    assert(GgmlType::F32.code() == 0 && GgmlType::F16.code() == 1 && GgmlType::Q4_0.code() == 2
        && GgmlType::Q4_1.code() == 3 && GgmlType::Q5_0.code() == 6 && GgmlType::Q5_1.code() == 7
        && GgmlType::Q8_0.code() == 8 && GgmlType::Q8_1.code() == 9 && GgmlType::Q2_K.code() == 10
        && GgmlType::Q3_K.code() == 11 && GgmlType::Q4_K.code() == 12 && GgmlType::Q5_K.code() == 13
        && GgmlType::Q6_K.code() == 14 && GgmlType::Q8_K.code() == 15 && GgmlType::IQ4_XS.code()
        == 30);
}

/// Under this key the metadata hold this number.
pub open spec fn says(m: Map<Seq<char>, MetaModel>, key: Seq<char>, v: u32) -> bool {
    m.contains_key(key) && (m[key] == MetaModel::Uint32(v) || m[key] == MetaModel::Uint64(v as u64)
        || m[key] == MetaModel::Int64(v as i64) || (v <= 0x7fff_ffff && m[key]
        == MetaModel::Int32(v as i32)))
}

/// A model has the numbers that stand under its keys, whatever the width in
/// which they are written; its type is the one whose number is given, and
/// IQ4_XS where none is.
pub proof fn law_config_has_the_numbers(
    m: Map<Seq<char>, MetaModel>,
    c: ModelConfig,
    t: GgmlType,
    v: u32,
)
    requires
        gguf::config_fault(m) is None,
        gguf::describes(m, c),
    ensures
        says(m, "llama.block_count"@, v) ==> c.block_count == v,
        says(m, "llama.context_length"@, v) ==> c.context_length == v,
        says(m, "llama.embedding_length"@, v) ==> c.embedding_length == v,
        says(m, "llama.feed_forward_length"@, v) ==> c.feed_forward_length == v,
        says(m, "llama.expert_count"@, v) ==> c.expert_count == v,
        says(m, "llama.expert_used_count"@, v) ==> c.expert_used_count == v,
        m["general.architecture"@] == MetaModel::Text(c.architecture@),
        says(m, "general.file_type"@, t.code()) ==> c.quant_type == t,
        says(m, "general.file_type"@, v) && !is_known_code(v) ==> c.quant_type is IQ4_XS,
        !m.contains_key("general.file_type"@) ==> c.quant_type is IQ4_XS,
{
    assert forall|key: Seq<char>, x: u32| #[trigger] says(m, key, x) implies gguf::int_under(
        m,
        key,
    )->0 as u32 == x && gguf::int_under(m, key) is Some by {
        lemma_widths(x);
    }
    let code = t.code();
    if says(m, "general.file_type"@, code) {
        assert(gguf::type_of(code) is Some);
        let u = gguf::type_of(code)->0;
        gguf::law_type_codes_differ(t, u);
    }
    lemma_known(v);
}

proof fn lemma_widths(x: u32)
    ensures
        (x as u64) as u32 == x,
        ((x as i64) as u64) as u32 == x,
        x <= 0x7fff_ffff ==> ((x as i32) as u64) as u32 == x,
{
    assert((x as u64) as u32 == x && ((x as i64) as u64) as u32 == x && (x <= 0x7fff_ffff ==> ((
    x as i32) as u64) as u32 == x)) by (bit_vector);
}

/// The metadata are refused exactly when they lack the name of the model or one
/// of its six numbers.
pub proof fn law_config_needs_its_keys(m: Map<Seq<char>, MetaModel>)
    ensures
        gguf::config_fault(m) is None <==> {
            &&& m.contains_key("general.architecture"@)
            &&& m["general.architecture"@] is Text
            &&& m.contains_key("llama.block_count"@)
            &&& m.contains_key("llama.context_length"@)
            &&& m.contains_key("llama.embedding_length"@)
            &&& m.contains_key("llama.feed_forward_length"@)
            &&& m.contains_key("llama.expert_count"@)
            &&& m.contains_key("llama.expert_used_count"@)
        },
        gguf::config_fault(m) matches Some(key) ==> !m.contains_key(key) || !(m[key] is Text),
{
}

/// A value stands for a number of 64 bits: one without a sign for itself, one
/// with a sign for itself where it is not negative, and else for its distance
/// below two to the sixty-fourth; a text, a list and a fraction for zero.
pub proof fn law_values_stand_for_numbers(v: MetaModel)
    ensures
        v matches MetaModel::Uint32(x) ==> gguf::int_value(v) == x,
        v matches MetaModel::Uint64(x) ==> gguf::int_value(v) == x,
        v matches MetaModel::Int32(x) ==> gguf::int_value(v) == if x >= 0 {
            x as int
        } else {
            0x1_0000_0000_0000_0000 + x
        },
        v matches MetaModel::Int64(x) ==> gguf::int_value(v) == if x >= 0 {
            x as int
        } else {
            0x1_0000_0000_0000_0000 + x
        },
        v is Text || v is Array || v is Float32 ==> gguf::int_value(v) == 0,
{
    if v is Int32 {
        let x = v->Int32_0;
        assert(x >= 0 ==> x as u64 == x) by (bit_vector);
        assert(x < 0 ==> x as u64 == 0x1_0000_0000_0000_0000 + x) by (bit_vector);
    }
    if v is Int64 {
        let x = v->Int64_0;
        assert(x >= 0 ==> x as u64 == x) by (bit_vector);
        assert(x < 0 ==> x as u64 == 0x1_0000_0000_0000_0000 + x) by (bit_vector);
    }
}

/// The summary of a model names its architecture and tells its sizes.
pub proof fn law_summary_tells_the_sizes(c: ModelConfig, bpw: Seq<char>)
    ensures
        ({
            let s = gguf::summary_text(c, bpw);
            &&& text::stands_at(s, 0, c.architecture@)
            &&& text::occurs_in(s, "| "@ + text::decimal(c.block_count as nat) + " blocks"@)
            &&& text::occurs_in(s, ", "@ + text::decimal(c.context_length as nat) + " ctx"@)
            &&& text::occurs_in(s, ", "@ + text::decimal(c.embedding_length as nat) + " hidden"@)
            &&& text::occurs_in(s, ", "@ + text::decimal(c.feed_forward_length as nat) + " inter"@)
            &&& text::occurs_in(s, ", "@ + text::decimal(c.expert_count as nat) + " experts"@)
            &&& text::occurs_in(s, "("@ + text::decimal(c.expert_used_count as nat) + " active)"@)
            &&& text::occurs_in(s, ", "@ + bpw + " bpw"@)
        }),
{
    reveal_strlit(" | ");
    reveal_strlit(" blocks, ");
    reveal_strlit(" ctx, ");
    reveal_strlit(" hidden, ");
    reveal_strlit(" inter, ");
    reveal_strlit(" experts (");
    reveal_strlit(" active), ");
    reveal_strlit(" bpw");
    reveal_strlit("| ");
    reveal_strlit(", ");
    reveal_strlit("(");
    reveal_strlit(" blocks");
    reveal_strlit(" ctx");
    reveal_strlit(" hidden");
    reveal_strlit(" inter");
    reveal_strlit(" experts");
    reveal_strlit(" active)");
    let s = gguf::summary_text(c, bpw);
    let d1 = text::decimal(c.block_count as nat);
    let d2 = text::decimal(c.context_length as nat);
    let d3 = text::decimal(c.embedding_length as nat);
    let d4 = text::decimal(c.feed_forward_length as nat);
    let d5 = text::decimal(c.expert_count as nat);
    let d6 = text::decimal(c.expert_used_count as nat);
    let x0 = c.architecture@;
    assert(s.subrange(0, x0.len() as int) =~= x0);
    assert(text::stands_at(s, 0, x0));
    let x1 = x0 + " | "@ + d1;
    let x2 = x1 + " blocks, "@ + d2;
    let x3 = x2 + " ctx, "@ + d3;
    let x4 = x3 + " hidden, "@ + d4;
    let x5 = x4 + " inter, "@ + d5;
    let x6 = x5 + " experts ("@ + d6;
    let x7 = x6 + " active), "@ + bpw;
    let y7 = " bpw"@;
    let y6 = " active), "@ + bpw + y7;
    let y5 = " experts ("@ + d6 + y6;
    let y4 = " inter, "@ + d5 + y5;
    let y3 = " hidden, "@ + d4 + y4;
    let y2 = " ctx, "@ + d3 + y3;
    let y1 = " blocks, "@ + d2 + y2;
    assert(x7 + y7 == s);
    assert(x6 + y6 =~= x7 + y7);
    assert(x5 + y5 =~= x6 + y6);
    assert(x4 + y4 =~= x5 + y5);
    assert(x3 + y3 =~= x4 + y4);
    assert(x2 + y2 =~= x3 + y3);
    assert(x1 + y1 =~= x2 + y2);
    assert(" | "@.subrange(1, 3) =~= "| "@);
    assert(y1.subrange(0, 7) =~= " blocks"@);
    text::lemma_key(x0, " | "@, d1, y1, "| "@, " blocks"@);
    assert(" blocks, "@.subrange(7, 9) =~= ", "@);
    assert(y2.subrange(0, 4) =~= " ctx"@);
    text::lemma_key(x1, " blocks, "@, d2, y2, ", "@, " ctx"@);
    assert(" ctx, "@.subrange(4, 6) =~= ", "@);
    assert(y3.subrange(0, 7) =~= " hidden"@);
    text::lemma_key(x2, " ctx, "@, d3, y3, ", "@, " hidden"@);
    assert(" hidden, "@.subrange(7, 9) =~= ", "@);
    assert(y4.subrange(0, 6) =~= " inter"@);
    text::lemma_key(x3, " hidden, "@, d4, y4, ", "@, " inter"@);
    assert(" inter, "@.subrange(6, 8) =~= ", "@);
    assert(y5.subrange(0, 8) =~= " experts"@);
    text::lemma_key(x4, " inter, "@, d5, y5, ", "@, " experts"@);
    assert(" experts ("@.subrange(9, 10) =~= "("@);
    assert(y6.subrange(0, 8) =~= " active)"@);
    text::lemma_key(x5, " experts ("@, d6, y6, "("@, " active)"@);
    assert(" active), "@.subrange(8, 10) =~= ", "@);
    assert(y7.subrange(0, 4) =~= " bpw"@);
    text::lemma_key(x6, " active), "@, bpw, y7, ", "@, " bpw"@);
}

/// What is said of a missing key ends with the key.
pub proof fn law_missing_key_is_named(key: Seq<char>)
    ensures
        text::occurs_in(gguf::missing_key(key), ": "@ + key),
{
    reveal_strlit("Missing metadata key: ");
    reveal_strlit(": ");
    let none = Seq::<char>::empty();
    let l = "Missing metadata key: "@;
    assert(l.subrange(20, 22) =~= ": "@);
    assert(none.subrange(0, 0) =~= none);
    text::lemma_key(none, l, key, none, ": "@, none);
    assert(none + l + key + none =~= gguf::missing_key(key));
    assert(": "@ + key + none =~= ": "@ + key);
}

} // verus!
