use moe_680m::embedding::{embedding_weights, store_hidden};
use moe_680m::gguf::{
    meta_get_int, meta_get_str, GgmlType, GgufReader, MetadataValue, ModelConfig, TensorInfo,
};
use moe_680m::memory::{
    fnv1a, known_names, load_weights_from_tensors, total_weight_size, ArenaLayout, LayerWeights,
    TensorRegistry,
};
use moe_680m::quantize::quantize_f16_to_iq4xs;
use moe_680m::reference::{ref_dequant_iq4_xs, Weight};
use moe_680m::util::{f16_bits_to_f32, f32_to_f16_bits};
use vstd::hash_map::StringHashMap;

fn put_string(b: &mut Vec<u8>, s: &str) {
    b.extend((s.len() as u64).to_le_bytes());
    b.extend(s.as_bytes());
}

fn put_u32_value(b: &mut Vec<u8>, key: &str, v: u32) {
    put_string(b, key);
    b.extend(4u32.to_le_bytes());
    b.extend(v.to_le_bytes());
}

fn put_tensor(b: &mut Vec<u8>, name: &str, dims: &[u64], ty: u32, offset: u64) {
    put_string(b, name);
    b.extend((dims.len() as u32).to_le_bytes());
    for d in dims {
        b.extend(d.to_le_bytes());
    }
    b.extend(ty.to_le_bytes());
    b.extend(offset.to_le_bytes());
}

fn header(tensors: u64, pairs: u64) -> Vec<u8> {
    let mut b = b"GGUF".to_vec();
    b.extend(3u32.to_le_bytes());
    b.extend(tensors.to_le_bytes());
    b.extend(pairs.to_le_bytes());
    b
}

fn model_pairs(b: &mut Vec<u8>) {
    put_string(b, "general.architecture");
    b.extend(8u32.to_le_bytes());
    put_string(b, "llama");
    put_u32_value(b, "llama.block_count", 40);
    put_u32_value(b, "llama.context_length", 4096);
    put_u32_value(b, "llama.embedding_length", 2048);
    put_u32_value(b, "llama.feed_forward_length", 512);
    put_u32_value(b, "llama.expert_count", 256);
    put_u32_value(b, "llama.expert_used_count", 8);
}

fn config() -> ModelConfig {
    ModelConfig {
        architecture: "llama".to_string(),
        block_count: 2,
        context_length: 128,
        embedding_length: 64,
        feed_forward_length: 32,
        expert_count: 4,
        expert_used_count: 2,
        quant_type: GgmlType::IQ4_XS,
    }
}

fn fail(data: &[u8]) -> String {
    match GgufReader::parse(data) {
        Ok(_) => panic!("parsed"),
        Err(e) => e,
    }
}

#[test]
fn parses_a_file() {
    let mut b = header(2, 8);
    model_pairs(&mut b);
    put_string(&mut b, "list");
    b.extend(9u32.to_le_bytes());
    b.extend(5u32.to_le_bytes());
    b.extend(2u64.to_le_bytes());
    b.extend((-1i32).to_le_bytes());
    b.extend(7i32.to_le_bytes());
    put_tensor(&mut b, "a", &[33, 2], 30, 0);
    put_tensor(&mut b, "b", &[], 0, 128);
    let end = b.len() as u64;
    b.resize(b.len() + 64, 0);
    let r = match GgufReader::parse(&b) {
        Ok(r) => r,
        Err(e) => panic!("{}", e),
    };
    assert_eq!(r.tensor_count, 2);
    assert_eq!(r.tensors[0].name, "a");
    assert_eq!(r.tensors[0].size, 3 * 36);
    assert_eq!(r.tensors[1].size, 4);
    assert_eq!(r.tensors[1].offset, 128);
    assert_eq!(r.tensor_data_offset, (end + 31) / 32 * 32);
    assert_eq!(r.config.block_count, 40);
    assert_eq!(r.config.quant_type, GgmlType::IQ4_XS);
    assert_eq!(
        r.config.summary("1.12"),
        "llama | 40 blocks, 4096 ctx, 2048 hidden, 512 inter, 256 experts (8 active), 1.12 bpw"
    );
    match r.metadata.get("list") {
        Some(MetadataValue::Array(a)) => {
            assert!(matches!(a[0], MetadataValue::Int32(-1)));
            assert!(matches!(a[1], MetadataValue::Int32(7)));
        }
        _ => panic!("no list"),
    }
}

#[test]
fn refuses_bad_headers() {
    assert_eq!(fail(&[0; 8]), "File too small for GGUF header");
    let mut b = header(0, 0);
    b[0] = b'X';
    assert_eq!(fail(&b), "Bad magic: [58, 47, 55, 46], expected GGUF");
    let mut b = header(0, 0);
    b[4] = 9;
    assert_eq!(fail(&b), "Unsupported GGUF version: 9");
    assert_eq!(fail(&header(0, 0)[..20]), "Unexpected end of GGUF data");
}

#[test]
fn refuses_bad_contents() {
    assert_eq!(fail(&header(0, 0)), "Missing metadata key: general.architecture");
    assert_eq!(fail(&header(0, 1)), "Unexpected end of GGUF data");
    let mut b = header(0, 1);
    b.extend(99u64.to_le_bytes());
    assert_eq!(fail(&b), "String exceeds file bounds");
    let mut b = header(0, 1);
    put_string(&mut b, "k");
    b.extend(77u32.to_le_bytes());
    assert_eq!(fail(&b), "Unknown metadata value type: 77");
    let mut b = header(0, 1);
    b.extend(1u64.to_le_bytes());
    b.push(0xff);
    assert!(fail(&b).starts_with("Invalid UTF-8 in GGUF string: invalid utf-8"));
    let mut b = header(1, 0);
    put_tensor(&mut b, "t", &[1], 99, 0);
    assert_eq!(fail(&b), "Unknown GGML type: 99 for tensor t");
    let mut b = header(1, 0);
    put_tensor(&mut b, "t", &[u64::MAX, 2], 0, 0);
    assert_eq!(fail(&b), "Tensor size overflow");
    let mut b = header(0, 1);
    put_string(&mut b, "k");
    b.extend(12u32.to_le_bytes());
    assert_eq!(fail(&b), "Missing metadata key: general.architecture");
}

#[test]
fn type_codes_go_both_ways() {
    for code in 0..64 {
        if let Some(t) = GgmlType::from_u32(code) {
            assert_eq!(t.to_u32(), code);
        }
    }
    assert_eq!(GgmlType::from_u32(0), Some(GgmlType::F32));
    assert_eq!(GgmlType::from_u32(30), Some(GgmlType::IQ4_XS));
    assert_eq!(GgmlType::from_u32(999), None);
    assert_eq!(GgmlType::IQ4_XS.block_size(), 32);
    assert_eq!(GgmlType::IQ4_XS.block_bytes(), 36);
    assert_eq!(GgmlType::F32.block_size(), 1);
    assert_eq!(GgmlType::F32.block_bytes(), 4);
    assert_eq!(GgmlType::Q4_0.block_bytes(), 18);
    assert_eq!(GgmlType::Q4_0.block_size(), 32);
}

#[test]
fn metadata_lookups() {
    let mut m: StringHashMap<MetadataValue> = StringHashMap::new();
    m.insert("s".to_string(), MetadataValue::String("x".to_string()));
    m.insert("i".to_string(), MetadataValue::Int64(-1));
    assert_eq!(meta_get_str(&m, "s"), Ok("x".to_string()));
    assert_eq!(meta_get_str(&m, "i"), Err("Missing metadata key: i".to_string()));
    assert_eq!(meta_get_int(&m, "i"), Ok(u64::MAX));
    assert_eq!(meta_get_int(&m, "s"), Ok(0));
    assert_eq!(meta_get_int(&m, "n"), Err("Missing metadata key: n".to_string()));
    assert!(ModelConfig::from_metadata(&m).is_err());
}

#[test]
fn arena_layout_of_a_small_model() {
    let l = ArenaLayout::compute(&config(), 100);
    assert_eq!(l.weights_base, 64);
    assert_eq!(l.weights_size, 128);
    assert_eq!(l.hidden_ping, 64 + 128);
    assert_eq!(l.hidden_pong, l.hidden_ping + 128 * 64 * 2);
    assert_eq!(l.kv_cache_base, l.hidden_pong + 128 * 64 * 2);
    assert_eq!(l.kv_cache_layer_stride, 128 * 576);
    assert_eq!(l.deltanet_state_base, l.kv_cache_base + 10 * 128 * 576);
    assert_eq!(l.routing_topk_size, 128 * 72);
    assert_eq!(l.total_size % 64, 0);
}

fn tensor(name: &str, size: u64, offset: u64) -> TensorInfo {
    TensorInfo { name: name.to_string(), ggml_type: GgmlType::F32, offset, size }
}

#[test]
fn registry_places_known_names_first() {
    let ts = [tensor("other", 10, 0), tensor("token_embd.weight", 100, 64)];
    let r = TensorRegistry::from_tensors(&ts, 64);
    let emb = r.lookup("token_embd.weight").unwrap();
    assert_eq!(emb.arena_offset, 64);
    assert_eq!(emb.size, 100);
    assert_eq!(r.lookup("other").unwrap().arena_offset, 192);
    assert!(r.lookup("missing").is_none());
    assert_eq!(total_weight_size(&ts), 110);
}

#[test]
fn names_are_hashed() {
    assert_eq!(fnv1a(b""), 0xcbf2_9ce4_8422_2325);
    assert_eq!(fnv1a(b"a"), 0xaf63_dc4c_8601_ec8c);
    let names = known_names();
    assert_eq!(names[0], "token_embd.weight");
}

#[test]
fn layer_weights_point_at_tensors() {
    let ts = [
        tensor("token_embd.weight", 64, 0),
        tensor("blk.1.attn_q.weight", 64, 64),
        tensor("blk.1.experts.3.w2.weight", 64, 128),
    ];
    let r = TensorRegistry::from_tensors(&ts, 64);
    let w = LayerWeights::from_registry(&r, &config());
    assert_eq!(w.embedding, 64);
    assert_eq!(w.attn_q, vec![0, 128]);
    assert_eq!(w.expert_w2.len(), 8);
    assert_eq!(w.expert_w2[1 * 4 + 3], 192);
    assert_eq!(w.expert_w2[0], 0);
    assert_eq!(w.num_mtp_heads, 0);
    assert_eq!(w.hidden_size, 64);
    assert_eq!(w.max_seq_len, 128);
}

#[test]
fn weights_are_copied_to_their_places() {
    let ts = [tensor("other", 3, 4), tensor("token_embd.weight", 2, 0)];
    let r = TensorRegistry::from_tensors(&ts, 64);
    let data: Vec<u8> = (0..32).collect();
    let mut arena = vec![0xee; 256];
    load_weights_from_tensors(&data, 8, &ts, &r, &mut arena, true);
    assert_eq!(&arena[64..67], &[8, 9, 0xee]);
    assert_eq!(&arena[128..132], &[12, 13, 14, 0xee]);
    assert_eq!(&arena[..64], &[0xee; 64]);
}

fn value(w: Weight) -> f32 {
    w.level as f32 * f32::from_bits(f16_bits_to_f32(w.scale))
}

#[test]
fn halves_become_blocks() {
    let mut numbers: Vec<u16> = vec![0; 64];
    for i in 0..16 {
        numbers[i] = f32_to_f16_bits((i as f32 * 0.37 - 1.5).to_bits());
        numbers[16 + i] = 0x3c00;
        numbers[32 + i] = if i == 3 { 0xc800 } else { 0x0001 };
    }
    let blocks = quantize_f16_to_iq4xs(&numbers);
    assert_eq!(blocks.len(), 72);
    for (k, n) in numbers.iter().enumerate() {
        let w = ref_dequant_iq4_xs(&blocks, k / 32, k % 32);
        let scale = f32::from_bits(f16_bits_to_f32(w.scale));
        let x = f32::from_bits(f16_bits_to_f32(*n));
        assert!((x - value(w)).abs() <= scale / 2.0);
    }
    assert_eq!(ref_dequant_iq4_xs(&blocks, 0, 20).level, 23);
    let lowest = ref_dequant_iq4_xs(&blocks, 1, 3);
    assert_eq!((lowest.level, lowest.scale), (-8, 0x3c00));
    let zero = ref_dequant_iq4_xs(&blocks, 1, 31);
    assert_eq!((zero.level, zero.scale), (0, 0x0400));
    assert_eq!(&blocks[24..36], &[0; 12]);
}

#[test]
fn half_precision_tensors_are_converted() {
    let mut ts = vec![tensor("a", 128, 0), tensor("b", 66, 128)];
    for t in ts.iter_mut() {
        t.ggml_type = GgmlType::F16;
    }
    let r = TensorRegistry::from_tensors(&ts, 0);
    let data: Vec<u8> = (0..97).flat_map(|i| (0x3000u16 + 17 * i).to_le_bytes()).collect();
    let numbers: Vec<u16> = (0..64).map(|i| 0x3000u16 + 17 * i).collect();
    let mut arena = vec![0xee; 512];
    load_weights_from_tensors(&data, 0, &ts, &r, &mut arena, true);
    let a = r.lookup("a").unwrap().arena_offset as usize;
    let b = r.lookup("b").unwrap().arena_offset as usize;
    assert_eq!(&arena[a..a + 72], &quantize_f16_to_iq4xs(&numbers)[..]);
    assert_eq!(&arena[a + 72..a + 128], &[0xee; 56]);
    assert_eq!(&arena[b..b + 66], &data[128..194]);
    load_weights_from_tensors(&data, 0, &ts, &r, &mut arena, false);
    assert_eq!(&arena[a..a + 128], &data[..128]);
}

#[test]
fn embeddings_are_read_and_stored() {
    let ts = [tensor("token_embd.weight", 4 * 72, 0)];
    let r = TensorRegistry::from_tensors(&ts, 64);
    let w = LayerWeights::from_registry(&r, &config());
    let mut arena = vec![0u8; 4096];
    let src = 64 + 3 * 72 + 36;
    arena[src + 2] = 0x00;
    arena[src + 3] = 0x40;
    arena[src + 4 + 15] = 0xf0;
    let e = embedding_weights(&arena, &w, 3);
    assert_eq!(e.len(), 64);
    assert_eq!(e[63].level, 15 - 8);
    assert_eq!(e[63].scale, 0x4000);
    assert_eq!(e[0].level, -8);
    let l = ArenaLayout { hidden_ping: 1024, ..ArenaLayout::compute(&config(), 100) };
    let values = vec![1.0f32.to_bits(); 64];
    store_hidden(&mut arena, &l, &w, 2, &values, true);
    assert_eq!(&arena[1024 + 2 * 128..1024 + 2 * 128 + 4], &[0x00, 0x3c, 0x00, 0x3c]);
    assert_eq!(arena[1024 + 2 * 128 - 1], 0);
    assert_eq!(arena[1024 + 3 * 128], 0);
}

#[test]
fn regions_do_not_overlap() {
    let l = ArenaLayout::compute(&config(), 1000);
    let regions = [
        (l.weights_base, l.weights_size),
        (l.hidden_ping, l.hidden_size),
        (l.hidden_pong, l.hidden_size),
        (l.kv_cache_base, l.kv_cache_size),
        (l.deltanet_state_base, l.deltanet_state_size),
        (l.snapshot_base, 0),
        (l.scratch_base, l.scratch_size),
        (l.temp_base, l.temp_size),
        (l.routing_logits_base, l.routing_logits_size),
        (l.routing_topk_base, l.routing_topk_size),
        (l.routing_token_base, l.routing_token_size),
        (l.routing_weight_base, l.routing_weight_size),
        (l.total_size, 0),
    ];
    for pair in regions.windows(2) {
        assert_eq!(pair[0].0 % 64, 0);
        assert!(pair[0].0 + pair[0].1 <= pair[1].0);
    }
    assert!(10 * l.kv_cache_layer_stride <= l.kv_cache_size);
}

#[test]
fn tensors_are_packed_by_lines() {
    let ts = [tensor("c", 36, 0), tensor("a", 1, 36), tensor("b", 64, 37)];
    let r = TensorRegistry::from_tensors(&ts, 64);
    let mut places: Vec<u64> =
        ["a", "b", "c"].iter().map(|n| r.lookup(n).unwrap().arena_offset).collect();
    places.sort();
    assert_eq!(places, vec![64, 128, 192]);
    assert_eq!(r.entries.len(), 3);
    assert!(r.entries.windows(2).all(|e| e[0].name_hash <= e[1].name_hash));
}
