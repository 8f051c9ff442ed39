use moe_680m::chain::api;
use moe_680m::chain::chat_template::{
    ChatTemplate, ContentBlock, Message, MessageContent, Piece, SpecialTokens,
};
use moe_680m::chain::cli::{arena_size, parse_args};
use moe_680m::chain::constants::{
    barrier_exec_only, barrier_host_read, barrier_memory_flush, pc_bytes, AttentionPC, PushBlock,
    RMSNormPC,
};
use moe_680m::chain::dispatch::{BarrierKind, BufferBinding, DispatchChain, DispatchStep};
use moe_680m::chain::engine::{count_accepted, div_up, Engine};
use moe_680m::chain::error::Error;
use moe_680m::chain::generation::{Generation, Output, StopRules};
use moe_680m::chain::gguf::{GgufDtype, GgufFile, GgufValue, ModelConfig};
use moe_680m::chain::kv_cache::KvCache;
use moe_680m::chain::memory::{Arena, Buffer};
use moe_680m::chain::mtp::MtpRunner;
use moe_680m::chain::probe::{probe_chain, probe_layout, ProbeBindings};
use moe_680m::chain::shaders::{shader_index, shader_names, spirv_words};
use moe_680m::chain::tools::{has_call, pieces, segments, Segment, ToolCall};
use moe_680m::chain::weights::WeightPool;

fn put_string(b: &mut Vec<u8>, s: &str) {
    b.extend((s.len() as u64).to_le_bytes());
    b.extend(s.as_bytes());
}

fn put_u32(b: &mut Vec<u8>, key: &str, v: u32) {
    put_string(b, key);
    b.extend(4u32.to_le_bytes());
    b.extend(v.to_le_bytes());
}

fn put_tensor(b: &mut Vec<u8>, name: &str, dims: &[u64], ty: u32, offset: u64) {
    put_string(b, name);
    b.extend((dims.len() as u32).to_le_bytes());
    for d in dims {
        b.extend(d.to_le_bytes());
    }
    b.extend(ty.to_le_bytes());
    b.extend(offset.to_le_bytes());
}

fn header(tensors: u64, pairs: u64) -> Vec<u8> {
    let mut b = b"GGUF".to_vec();
    b.extend(3u32.to_le_bytes());
    b.extend(tensors.to_le_bytes());
    b.extend(pairs.to_le_bytes());
    b
}

fn model_pairs(b: &mut Vec<u8>) {
    put_u32(b, "qwen3.attention.head_count", 16);
    put_u32(b, "qwen3.attention.head_count_kv", 2);
    put_u32(b, "qwen3.embedding_length", 2048);
    put_u32(b, "qwen3.block_count", 3);
    put_u32(b, "qwen3.feed_forward_length", 512);
    put_u32(b, "qwen3.vocab_size", 1000);
}

fn config() -> ModelConfig {
    let mut b = header(0, 8);
    model_pairs(&mut b);
    put_u32(&mut b, "qwen3.expert_count", 8);
    put_u32(&mut b, "qwen3.expert_used_count", 2);
    match GgufFile::parse(&b) {
        Ok(f) => match f.model_config() {
            Ok(c) => c,
            Err(e) => panic!("{}", e.message()),
        },
        Err(e) => panic!("{}", e.message()),
    }
}

fn engine() -> Engine {
    let mut arena = Arena::new(1 << 30);
    match Engine::new(config(), 16, &mut arena) {
        Ok(e) => e,
        Err(e) => panic!("{}", e.message()),
    }
}

fn names(chain: &DispatchChain) -> Vec<&'static str> {
    (0..chain.len()).map(|i| chain.step(i).pipeline_name).collect()
}

/// A pair whose value has a type that GGUF numbers so.
fn put_pair(b: &mut Vec<u8>, key: &str, ty: u32, value: &[u8]) {
    put_string(b, key);
    b.extend(ty.to_le_bytes());
    b.extend(value);
}

/// Pairs as model files hold them.
fn standard_pairs(b: &mut Vec<u8>) {
    let mut text = Vec::new();
    put_string(&mut text, "qwen3");
    put_pair(b, "general.architecture", 8, &text);
    put_pair(b, "qwen3.attention.layer_norm_rms_epsilon", 6, &1e-5f32.to_le_bytes());
    put_pair(b, "tokenizer.ggml.add_bos_token", 7, &[1]);
    put_pair(b, "a.byte", 0, &[200]);
    put_pair(b, "a.small", 1, &[0xfe]);
    put_pair(b, "a.short", 2, &[1, 2]);
    put_pair(b, "a.signed", 3, &[0xff, 0xff]);
    put_pair(b, "a.int", 5, &(-3i32).to_le_bytes());
    put_pair(b, "a.long", 10, &u64::MAX.to_le_bytes());
    put_pair(b, "a.wide", 11, &(-4i64).to_le_bytes());
    put_pair(b, "a.double", 12, &1.5f64.to_le_bytes());
    let array = |ty: u32, n: u64, items: &[u8]| -> Vec<u8> {
        let mut a = ty.to_le_bytes().to_vec();
        a.extend(n.to_le_bytes());
        a.extend(items);
        a
    };
    let mut words = Vec::new();
    put_string(&mut words, "one");
    put_string(&mut words, "two");
    put_pair(b, "tokenizer.ggml.tokens", 9, &array(8, 2, &words));
    put_pair(b, "a.types", 9, &array(5, 1, &[1, 0, 0, 0]));
    put_pair(b, "a.words", 9, &array(4, 2, &[7, 0, 0, 0, 8, 0, 0, 0]));
    put_pair(b, "a.scores", 9, &array(6, 1, &1.0f32.to_le_bytes()));
    put_pair(b, "a.longs", 9, &array(11, 1, &(-1i64).to_le_bytes()));
}

#[test]
fn parse_model_metadata() {
    let mut b = header(101, 22);
    standard_pairs(&mut b);
    model_pairs(&mut b);
    for i in 0..101 {
        put_tensor(&mut b, &format!("tensor.{}", i), &[1], 0, 0);
    }
    let gguf = match GgufFile::parse(&b) {
        Ok(f) => f,
        Err(e) => panic!("GGUF open: {}", e.message()),
    };
    assert!(gguf.tensors.len() > 100, "expected >100 tensors, got {}", gguf.tensors.len());
    assert!(gguf.metadata.len() > 10, "expected >10 metadata keys, got {}", gguf.metadata.len());
    let config = gguf.model_config().ok().unwrap();
    assert_eq!((config.n_layers, config.eps_bits), (3, 1e-5f32.to_bits()));
}

#[test]
fn values_by_the_numbers_of_gguf() {
    let mut b = header(0, 16);
    standard_pairs(&mut b);
    let f = GgufFile::parse(&b).ok().unwrap();
    let get = |key: &str| f.metadata.get(key);
    assert!(matches!(get("general.architecture"), Some(GgufValue::String(t)) if t == "qwen3"));
    assert!(matches!(get("tokenizer.ggml.add_bos_token"), Some(GgufValue::Bool(true))));
    assert!(matches!(get("a.byte"), Some(GgufValue::U8(200))));
    assert!(matches!(get("a.small"), Some(GgufValue::I32(-2))));
    assert!(matches!(get("a.short"), Some(GgufValue::U32(513))));
    assert!(matches!(get("a.signed"), Some(GgufValue::I32(-1))));
    assert!(matches!(get("a.int"), Some(GgufValue::I32(-3))));
    assert!(matches!(get("a.long"), Some(GgufValue::U64(u64::MAX))));
    assert!(matches!(get("a.wide"), Some(GgufValue::I64(-4))));
    assert!(matches!(get("a.double"), Some(GgufValue::F64(v)) if *v == 1.5f64.to_bits()));
    assert!(get("tokenizer.ggml.tokens").is_none());
    assert!(get("a.types").is_none());
    assert!(matches!(get("a.words"), Some(GgufValue::ArrayU32(v)) if v == &vec![7, 8]));
    assert!(matches!(get("a.scores"), Some(GgufValue::ArrayF32(v)) if v[0] == 1.0f32.to_bits()));
    assert!(matches!(get("a.longs"), Some(GgufValue::ArrayI64(v)) if v == &vec![-1]));
    assert_eq!(f.metadata.len(), 14);
}

#[test]
fn values_by_numbers_of_their_own() {
    let mut b = header(0, 3);
    put_pair(&mut b, "a", 8, &(-5i64).to_le_bytes());
    put_pair(&mut b, "b", 22, &1.0f32.to_le_bytes());
    put_pair(&mut b, "c", 26, &[0]);
    let f = GgufFile::parse(&b).ok().unwrap();
    assert!(matches!(f.metadata.get("a"), Some(GgufValue::I64(-5))));
    assert!(matches!(f.metadata.get("b"), Some(GgufValue::F32(v)) if *v == 1.0f32.to_bits()));
    assert!(matches!(f.metadata.get("c"), Some(GgufValue::Bool(false))));
}

#[test]
fn tensors_tile_the_file() {
    let mut b = header(2, 0);
    put_tensor(&mut b, "a", &[2, 3], 0, 130);
    put_tensor(&mut b, "b", &[u64::MAX, 2], 8, 138);
    b.resize(140, 7);
    let f = match GgufFile::parse(&b) {
        Ok(f) => f,
        Err(e) => panic!("{}", e.message()),
    };
    let a = f.find_tensor("a").unwrap();
    assert_eq!((a.n_elements, a.size_bytes, a.dtype), (6, 8, GgufDtype::F32));
    assert_eq!(f.tensor_data(a), &b[130..138]);
    let t = f.find_tensor("b").unwrap();
    assert_eq!((t.n_elements, t.size_bytes, t.dtype), (u64::MAX, 2, GgufDtype::Q8_0));
    assert!(f.find_tensor("c").is_none());
    assert_eq!(GgufDtype::Q4_0.type_size(), 18);
    assert_eq!(GgufDtype::from_raw(77), GgufDtype::Unknown(77));
}

fn fault(b: &[u8]) -> String {
    match GgufFile::parse(b) {
        Ok(_) => panic!("parsed"),
        Err(e) => e.message(),
    }
}

#[test]
fn files_are_checked() {
    assert_eq!(fault(&[]), "GGUF parse: file too small for GGUF header");
    let mut b = header(0, 0);
    b[3] = b'G';
    assert_eq!(fault(&b), "GGUF parse: bad magic — not a GGUF file");
    let mut b = header(0, 0);
    b[4] = 2;
    assert_eq!(fault(&b), "GGUF parse: unsupported GGUF version 2");
    assert_eq!(
        fault(&header(0, 1)),
        "GGUF parse: truncated GGUF: string length prefix out of bounds"
    );
    let mut b = header(0, 1);
    put_string(&mut b, "k");
    b.extend(99u32.to_le_bytes());
    assert_eq!(fault(&b), "GGUF parse: unknown value type 99");
    let mut b = header(1, 0);
    put_tensor(&mut b, "t", &[], 0, 9999);
    assert_eq!(fault(&b), "GGUF parse: tensor offsets out of order");
}

#[test]
fn model_configuration() {
    let c = config();
    assert_eq!((c.n_layers, c.hidden_dim, c.n_heads_q, c.n_heads_kv), (3, 2048, 16, 2));
    assert_eq!(c.head_dim, 128);
    assert_eq!((c.n_experts, c.n_active_experts, c.n_shared_experts), (8, 2, 0));
    assert_eq!(c.max_seq_len, 32768);
    assert_eq!(f32::from_bits(c.rope_theta_bits), 1_000_000.0);
    assert_eq!(f32::from_bits(c.eps_bits), 1e-6);
    assert_eq!(c.rope_type, "default");
    let b = header(0, 0);
    let f = GgufFile::parse(&b).ok().unwrap();
    assert_eq!(
        f.model_config().err().unwrap().message(),
        "Model architecture mismatch: missing or wrong type: qwen3.attention.head_count"
    );
}

#[test]
fn arena_hands_out_aligned_regions() {
    let mut a = Arena::new(512);
    assert_eq!(a.allocate("x", 100).ok(), Some(0));
    assert_eq!(a.allocate("y", 200).ok(), Some(128));
    assert_eq!(a.bind_offset("y").ok(), Some(128));
    assert!(a.bind_offset("z").is_err());
    let e = a.allocate("z", 200).err().unwrap();
    assert_eq!(e.message(), "Out of memory: needed 200, available 128");
    assert_eq!(a.allocate("z", 128).ok(), Some(384));
}

#[test]
fn regions_stand_under_their_names() {
    let mut a = Arena::new(512);
    let at = a.allocate_all(&vec!["x", "y"], &vec![100, 200]).ok().unwrap();
    assert_eq!(at, vec![0, 128]);
    assert_eq!(a.bind_offset("x").ok(), Some(0));
    assert_eq!(a.bind_offset("y").ok(), Some(128));
    assert!(a.allocate_all(&vec!["v", "w"], &vec![64, 128]).is_err());
    assert_eq!(a.bind_offset("v").ok(), Some(384));
    assert!(a.bind_offset("w").is_err());
    let mut a = Arena::new(1 << 20);
    let k = KvCache::new(&config(), 4, &mut a).ok().unwrap();
    assert_eq!(a.bind_offset("kv_cache_k").ok(), Some(k.k_q4.offset));
    assert_eq!(a.bind_offset("kv_cache_v").ok(), Some(k.v_i8.offset));
}

#[test]
fn cache_positions() {
    let b = Buffer { offset: 0, size: 0 };
    let mut k = KvCache::in_buffers(&config(), 4, b, b);
    assert_eq!(k.k_offset(0, 0, 0), 0);
    assert_eq!(k.k_offset(1, 1, 2), ((1 * 2 + 1) * 4 + 2) * 72);
    assert_eq!(k.v_offset(1, 1, 2), ((1 * 2 + 1) * 4 + 2) * 128);
    assert_eq!(k.advance().ok(), Some(0));
    assert_eq!(k.position(), 1);
    assert_eq!(k.room(), 3);
    assert!(k.advance_by(3).is_ok());
    assert_eq!(k.room(), 0);
    assert_eq!(k.advance().err().unwrap().message(), "KV cache full: 4 tokens, max 4; reduce max_tokens or restart with a shorter context");
    assert_eq!(k.position(), 4);
}

#[test]
fn passes_are_chains() {
    let mut e = engine();
    let chain = e.prefill(&[1, 2, 3]).ok().unwrap();
    let n = names(&chain);
    assert_eq!(n[0], "embed");
    assert_eq!(n[n.len() - 2..], ["lm_head", "sample"]);
    assert_eq!(n.len(), 1 + 3 * (5 + 6 + 2 + 2 + 1 + 2 + 2) + 2);
    assert_eq!(e.kv_cache.position(), 3);
    assert_eq!(chain.step(0).workgroup_x, 3);
    assert!(e.decode().is_ok());
    assert_eq!(e.kv_cache.position(), 4);
    assert!(e.prefill(&[0; 13]).is_err());
    assert_eq!(e.kv_cache.position(), 16);
    assert!(e.verify_forward(&[]).is_none());
    let v = e.verify_forward(&[5, 6]).unwrap();
    assert_eq!(names(&v).last(), Some(&"lm_head"));
    assert_eq!(v.step(v.len() - 1).workgroup_y, 2);
}

#[test]
fn layers_flush_once() {
    let mut chain = DispatchChain::new();
    engine().build_layer_chain(&mut chain, 1);
    let flushes: Vec<&str> = (0..chain.len())
        .filter(|i| chain.step(*i).barrier == BarrierKind::MemoryFlush)
        .map(|i| chain.step(i).pipeline_name)
        .collect();
    assert_eq!(flushes, vec!["kv_write"]);
}

#[test]
fn chains_are_recorded() {
    let mut chain = DispatchChain::new();
    chain.add(DispatchStep {
        pipeline_name: "rope",
        push_data: [7; 128],
        workgroup_x: 1,
        workgroup_y: 2,
        workgroup_z: 3,
        buffers: vec![BufferBinding { buffer: 1, offset: 2, range: 3 }],
        barrier: BarrierKind::HostRead,
    });
    let loaded: Vec<String> = shader_names().iter().map(|s| s.to_string()).collect();
    let r = chain.record(&loaded).ok().unwrap();
    assert_eq!(r.len(), 1);
    assert_eq!(Some(r[0].shader), shader_index("rope"));
    assert_eq!(r[0].push_data, [7; 128]);
    assert_eq!(r[0].buffers, vec![BufferBinding { buffer: 1, offset: 2, range: 3 }]);
    assert_eq!(r[0].barrier, Some(barrier_host_read()));
    assert_eq!(
        chain.record(&vec![]).err().unwrap().message(),
        "API: unknown pipeline: rope"
    );
}

#[test]
fn unlisted_pipelines_are_refused() {
    let mut chain = DispatchChain::new();
    chain.add(DispatchStep {
        pipeline_name: "other",
        push_data: [0; 128],
        workgroup_x: 1,
        workgroup_y: 1,
        workgroup_z: 1,
        buffers: vec![],
        barrier: BarrierKind::NoBarrier,
    });
    assert_eq!(
        chain.record(&vec!["other".to_string()]).err().unwrap().message(),
        "API: pipeline 'other' not in SHADERS list"
    );
}

#[test]
fn push_constants_are_padded() {
    let pc = RMSNormPC { rows: 1, dim: 2048, eps_bits: 0x3586_37bd };
    let b = pc_bytes(&pc);
    assert_eq!(&b[0..4], &1u32.to_ne_bytes());
    assert_eq!(&b[4..8], &2048u32.to_ne_bytes());
    assert_eq!(&b[8..12], &0x3586_37bdu32.to_ne_bytes());
    assert!(b[12..].iter().all(|x| *x == 0));
    let a = AttentionPC { seq_len: 1, n_heads: 2, n_kv_heads: 3, head_dim: 4, max_seq_len: 5 };
    assert_eq!(a.to_words(), vec![1, 2, 3, 4, 5]);
}

#[test]
fn barriers() {
    assert_eq!(barrier_exec_only().src_access, 0);
    assert_eq!(barrier_exec_only().dst_access, 0);
    assert_ne!(barrier_memory_flush().src_access, 0);
    assert_ne!(barrier_host_read().dst_stage, barrier_memory_flush().dst_stage);
    assert_eq!(BarrierKind::NoBarrier.masks(), None);
}

#[test]
fn groups_cover() {
    assert_eq!(div_up(1, 256), 1);
    assert_eq!(div_up(256, 256), 1);
    assert_eq!(div_up(257, 256), 2);
    assert_eq!(div_up(0, 256), 0);
}

#[test]
fn drafts_are_accepted_in_a_row() {
    assert_eq!(count_accepted(&[5, 6, 7], &[6, 7]), 3);
    assert_eq!(count_accepted(&[5, 6, 7], &[6, 9]), 2);
    assert_eq!(count_accepted(&[5, 6, 7], &[9, 7]), 1);
    assert_eq!(count_accepted(&[5, 6], &[]), 1);
    assert_eq!(count_accepted(&[], &[1]), 0);
}

#[test]
fn drafting_rounds() {
    let e = engine();
    let runner = MtpRunner::new(3, 2);
    assert_eq!(runner.rounds(), 2);
    let mut run = runner.draft(9);
    let chain = run.next_chain(&e).unwrap();
    assert_eq!(names(&chain), vec!["mtp_concat_norm", "mtp_attention", "mtp_ffn", "mtp_head"]);
    run.push(10);
    assert!(run.next_chain(&e).is_some());
    run.push(11);
    assert!(run.next_chain(&e).is_none());
    assert_eq!(run.into_drafts(), vec![9, 10, 11]);
}

#[test]
fn verification_advances_the_cache() {
    let mut e = engine();
    let runner = MtpRunner::new(2, 2);
    assert_eq!(runner.verify(&mut e, &[5, 6, 7], &[6, 1]).ok(), Some(2));
    assert_eq!(e.kv_cache.position(), 2);
}

#[test]
fn weights_are_placed_once() {
    let mut b = header(2, 0);
    put_tensor(&mut b, "a", &[1], 0, 130);
    put_tensor(&mut b, "b", &[1], 1, 160);
    b.resize(170, 0);
    let f = GgufFile::parse(&b).ok().unwrap();
    let mut pool = WeightPool::new(256);
    let a = pool.upload(&f, "a").ok().unwrap();
    assert_eq!((a.offset, a.size, a.skip, a.fresh), (0, 30, 16, true));
    let again = pool.upload(&f, "a").ok().unwrap();
    assert_eq!((again.offset, again.fresh), (0, false));
    let t = pool.upload(&f, "b").ok().unwrap();
    assert_eq!((t.offset, t.size, t.skip), (128, 10, 0));
    assert!(pool.upload(&f, "c").is_err());
    pool.clear();
    assert_eq!(pool.upload(&f, "b").ok().map(|u| u.offset), Some(0));
}

#[test]
fn shader_words() {
    assert_eq!(spirv_words(&[3, 2, 35, 7, 1, 0, 0, 0]), Some(vec![0x0723_0203, 1]));
    assert_eq!(spirv_words(&[1, 2, 3]), None);
    assert_eq!(shader_index("rms_norm"), Some(0));
    assert_eq!(shader_index("nothing"), None);
    assert_eq!(shader_names().len(), 23);
}

#[test]
fn prompts_in_pieces() {
    let t = SpecialTokens::resolve(Some(100), Some(101), 7);
    assert_eq!((t.im_start, t.im_end, t.eos_token), (100, 101, 101));
    let d = SpecialTokens::resolve(None, None, 7);
    assert_eq!((d.im_start, d.im_end, d.eos_token), (0, 7, 7));
    let ms = vec![Message {
        role: "user".to_string(),
        content: MessageContent::Blocks(vec![
            ContentBlock::Text { text: "hi".to_string() },
            ContentBlock::ToolUse {
                id: "1".to_string(),
                name: "f".to_string(),
                input: "{\"x\":1}".to_string(),
            },
        ]),
    }];
    let pieces = ChatTemplate::apply(&ms, Some(""), t);
    let texts: Vec<&str> = pieces
        .iter()
        .filter_map(|p| match p {
            Piece::Text(s) => Some(s.as_str()),
            _ => None,
        })
        .collect();
    assert_eq!(
        texts,
        vec!["user", "hi", "{\"name\":\"f\",\"arguments\":{\"x\":1}}", "assistant\n"]
    );
    let encoded: Vec<Vec<u32>> = (0..4).map(|i| vec![i]).collect();
    assert_eq!(
        ChatTemplate::join(&pieces, &encoded),
        vec![100, 0, 10, 1, 2, 101, 10, 100, 3]
    );
}

#[test]
fn routes() {
    assert_eq!(api::route("POST", "/v1/messages"), api::Route::Messages);
    assert_eq!(api::route("POST", "/v1/messages/count_tokens"), api::Route::CountTokens);
    assert_eq!(api::route("GET", "/v1/messages"), api::Route::NotFound);
    assert_eq!(api::route("POST", "/"), api::Route::NotFound);
}

#[test]
fn answers() {
    assert_eq!(api::answer(api::Route::NotFound, false, None), api::Answer::NotFound);
    assert_eq!(api::answer(api::Route::Messages, false, None), api::Answer::Invalid);
    assert_eq!(api::answer(api::Route::CountTokens, false, None), api::Answer::Invalid);
    assert_eq!(api::answer(api::Route::CountTokens, true, Some(true)), api::Answer::Count);
    assert_eq!(api::answer(api::Route::Messages, true, Some(true)), api::Answer::Stream);
    assert_eq!(api::answer(api::Route::Messages, true, Some(false)), api::Answer::NotImplemented);
    assert_eq!(api::answer(api::Route::Messages, true, None), api::Answer::NotImplemented);
    assert_eq!(api::refusal_body(api::Answer::NotFound, "x").as_deref(), Some("Not Found"));
    assert_eq!(
        api::refusal_body(api::Answer::Invalid, "x"),
        Some(api::error_body("invalid_request_error", "x"))
    );
    assert_eq!(
        api::refusal_body(api::Answer::NotImplemented, "x"),
        Some(api::error_body("not_implemented", "only streaming is supported"))
    );
    assert_eq!(api::refusal_body(api::Answer::Count, "x"), None);
    assert_eq!(api::refusal_body(api::Answer::Stream, "x"), None);
    assert_eq!(api::Answer::NotFound.status(), 404);
    assert_eq!(api::Answer::Invalid.status(), 400);
    assert_eq!(api::Answer::Count.status(), 200);
    assert_eq!(api::Answer::Stream.status(), 200);
    assert_eq!(api::Answer::NotImplemented.status(), 501);
}

fn output(token: u32, text: &str) -> Output {
    Output { token, text: Some(text.to_string()) }
}

fn rules(max_tokens: u32, room: u32, stops: &[&str]) -> StopRules {
    StopRules {
        eos: 9,
        max_tokens,
        room,
        stop_sequences: stops.iter().map(|s| s.to_string()).collect(),
    }
}

fn data_of(body: &str) -> Vec<(String, serde_json::Value)> {
    body.split("\n\n")
        .filter_map(|e| e.strip_prefix("event: "))
        .map(|e| {
            let (kind, data) = e.split_once("\ndata: ").unwrap();
            let v: serde_json::Value = serde_json::from_str(data).unwrap();
            assert_eq!(v["type"].as_str(), Some(kind));
            (kind.to_string(), v)
        })
        .collect()
}

#[test]
fn replies_are_event_streams() {
    assert_eq!(api::sse_event("a", "b"), "event: a\ndata: b\n\n");
    let mut g = Generation::begin(output(1, "a\""), rules(10, 100, &[]));
    g.step(Some(Output { token: 2, text: None }));
    g.step(Some(output(3, "b")));
    g.step(Some(output(9, "c")));
    let parts = segments(g.outputs_so_far(), false);
    let calls: Vec<Option<ToolCall>> = parts.iter().map(|_| None).collect();
    let all = pieces(&parts, &calls);
    let body = api::reply_body(4, &all, &g.ending(has_call(&all)));
    let events = data_of(&body);
    let kinds: Vec<&str> = events.iter().map(|e| e.0.as_str()).collect();
    assert_eq!(
        kinds,
        vec![
            "message_start",
            "content_block_start",
            "content_block_delta",
            "content_block_delta",
            "content_block_delta",
            "content_block_stop",
            "message_delta",
            "message_stop",
        ]
    );
    assert_eq!(events[0].1["message"]["usage"]["input_tokens"], 4);
    assert!(events[0].1["message"]["metadata"].is_null());
    assert_eq!(events[2].1["delta"]["text"], "a\"");
    assert_eq!(events[6].1["delta"]["stop_reason"], "end_turn");
    assert!(events[6].1["delta"]["stop_sequence"].is_null());
    assert_eq!(events[6].1["usage"]["output_tokens"], 4);
}

#[test]
fn tool_calls_have_blocks_of_their_own() {
    let mut g = Generation::begin(output(1, "see {\"na"), rules(10, 100, &[]));
    g.step(Some(output(2, "me\":\"f}\",\"arguments\":{\"x\":1}} and")));
    g.step(Some(output(3, " {x} {")));
    g.step(Some(output(9, "")));
    let parts = segments(g.outputs_so_far(), true);
    let seen: Vec<(bool, &str)> = parts
        .iter()
        .map(|p| match p {
            Segment::Text(t) => (false, t.as_str()),
            Segment::Object(t) => (true, t.as_str()),
        })
        .collect();
    assert_eq!(
        seen,
        vec![
            (false, "see "),
            (true, "{\"name\":\"f}\",\"arguments\":{\"x\":1}}"),
            (false, " and"),
            (false, " "),
            (true, "{x}"),
            (false, " "),
            (false, "{"),
        ]
    );
    let mut calls: Vec<Option<ToolCall>> = parts.iter().map(|_| None).collect();
    calls[1] =
        Some(ToolCall { name: "f}".to_string(), arguments: "{\"x\":1}".to_string() });
    let all = pieces(&parts, &calls);
    assert!(has_call(&all));
    assert_eq!(g.stop_reason(false), "end_turn");
    assert_eq!(g.stop_reason(true), "tool_use");
    let events = data_of(&api::reply_body(4, &all, &g.ending(true)));
    let blocks: Vec<(String, u64)> = events
        .iter()
        .filter(|e| e.0.starts_with("content_block_st"))
        .map(|e| (e.0.clone(), e.1["index"].as_u64().unwrap()))
        .collect();
    let expected: Vec<(String, u64)> = (0..3)
        .flat_map(|i| {
            [("content_block_start".to_string(), i), ("content_block_stop".to_string(), i)]
        })
        .collect();
    assert_eq!(blocks, expected);
    let tool = events.iter().find(|e| e.1["content_block"]["type"] == "tool_use").unwrap();
    assert_eq!(tool.1["content_block"]["name"], "f}");
    assert_eq!(tool.1["content_block"]["id"], "toolu_1");
    let input = events.iter().find(|e| e.1["delta"]["type"] == "input_json_delta").unwrap();
    assert_eq!(input.1["delta"]["partial_json"], "{\"x\":1}");
    let text: String = events
        .iter()
        .filter(|e| e.1["delta"]["type"] == "text_delta")
        .map(|e| e.1["delta"]["text"].as_str().unwrap())
        .collect();
    assert_eq!(text, "see  and {x} {");
    assert_eq!(events[events.len() - 2].1["delta"]["stop_reason"], "tool_use");
}

#[test]
fn braces_are_text_without_tools() {
    let outs = [output(1, "{\"name\":\"f\""), output(2, "}")];
    let parts = segments(&outs, false);
    assert_eq!(parts.len(), 2);
    assert!(parts.iter().all(|p| matches!(p, Segment::Text(_))));
}

#[test]
fn error_bodies_are_json() {
    let v: serde_json::Value =
        serde_json::from_str(&api::error_body("invalid_request_error", "no \"x\"")).unwrap();
    assert_eq!(v["type"], "error");
    assert_eq!(v["error"]["type"], "invalid_request_error");
    assert_eq!(v["error"]["message"], "no \"x\"");
    assert_eq!(api::count_body(12), "{\"input_tokens\":12}");
    assert_eq!(api::error_body_from("\"a\"", "\"b\""), api::error_body("a", "b"));
    assert_eq!(api::error_event_from("\"b\""), api::error_event("b"));
    assert!(api::error_event("x\n").contains("\"message\":\"x\\n\""));
    assert!(api::poisoned_event().contains("engine lock poisoned"));
}

#[test]
fn generations_end() {
    let mut g = Generation::begin(output(5, "a"), rules(4, 100, &[]));
    assert_eq!(g.next(), Some(5));
    g.step(Some(output(6, "b")));
    assert_eq!(g.next(), Some(6));
    g.step(Some(output(9, "c")));
    assert_eq!(g.next(), None);
    let tokens: Vec<u32> = g.outputs_so_far().iter().map(|o| o.token).collect();
    assert_eq!(tokens, vec![5, 6, 9]);
    assert_eq!(g.stop_reason(false), "end_turn");
    let mut g = Generation::begin(output(5, "a"), rules(4, 100, &[]));
    g.step(None);
    assert_eq!(g.next(), None);
    assert_eq!(g.outputs_so_far().len(), 1);
    assert_eq!(g.stop_reason(false), "end_turn");
    assert_eq!(Generation::begin(output(5, ""), rules(0, 100, &[])).next(), None);
    assert_eq!(Generation::begin(output(9, ""), rules(5, 100, &[])).next(), None);
}

#[test]
fn generations_end_at_the_token_limit() {
    let mut g = Generation::begin(output(1, "a"), rules(3, 100, &[]));
    while g.next().is_some() {
        g.step(Some(output(2, "b")));
    }
    let e = g.ending(false);
    assert_eq!(e.output_tokens, 3);
    assert_eq!(e.stop_reason, "max_tokens");
    assert_eq!(e.stop_sequence, None);
    assert_eq!(e.clamped_to, None);
    let body = api::reply_body(4, &[], &e);
    let events = data_of(&body);
    assert_eq!(events[3].1["delta"]["stop_reason"], "max_tokens");
    assert_eq!(events[3].1["usage"]["output_tokens"], 3);
    let g = Generation::begin(output(1, "a"), rules(1, 100, &[]));
    assert_eq!(g.next(), None);
    assert_eq!(g.stop_reason(false), "max_tokens");
}

#[test]
fn generations_end_with_the_context() {
    let mut g = Generation::begin(output(1, "a"), rules(50, 2, &[]));
    while g.next().is_some() {
        g.step(Some(output(2, "b")));
    }
    let e = g.ending(false);
    assert_eq!(e.output_tokens, 3);
    assert_eq!(e.stop_reason, "max_tokens");
    assert_eq!(e.clamped_to, Some(3));
    let events = data_of(&api::reply_body(4, &[], &e));
    assert_eq!(
        events[0].1["message"]["metadata"]["warning"],
        "max_tokens clamped to 3"
    );
    assert_eq!(rules(3, 2, &[]).most_tokens(), 3);
    assert_eq!(rules(u32::MAX, u32::MAX, &[]).most_tokens(), u32::MAX);
}

#[test]
fn generations_end_with_a_stop_sequence() {
    let mut g = Generation::begin(output(1, "ab"), rules(10, 100, &["", "xy", "b\"c"]));
    assert_eq!(g.next(), Some(1));
    g.step(Some(Output { token: 2, text: None }));
    g.step(Some(output(3, "\"cd")));
    assert_eq!(g.next(), None);
    let e = g.ending(true);
    assert_eq!(e.stop_reason, "stop_sequence");
    assert_eq!(e.stop_sequence.as_deref(), Some("b\"c"));
    let events = data_of(&api::reply_body(4, &[], &e));
    assert_eq!(events[3].1["delta"]["stop_sequence"], "b\"c");
}

#[test]
fn arguments() {
    let raw = |v: &[&str]| -> Vec<String> { v.iter().map(|s| s.to_string()).collect() };
    let a = parse_args(&raw(&["p", "--model", "m", "--port", "99", "--smoke"])).unwrap();
    assert_eq!(a.model.as_deref(), Some("m"));
    assert_eq!((a.port, a.max_context, a.smoke, a.test_forward), (99, 4096, true, false));
    assert!(parse_args(&raw(&["p", "--port"])).is_none());
    let d = parse_args(&raw(&["p", "--port", "x", "--unknown"])).unwrap();
    assert_eq!(d.port, 8787);
    assert_eq!(
        arena_size(&config(), 16),
        (1 << 30) + 3 * 16 * 2 * (128 / 32 * 18 + 128)
    );
}

#[test]
fn trial_run() {
    let c = config();
    let l = probe_layout(&c);
    assert_eq!(l.sizes, vec![8192, 8192, 1024, 1024, 8192]);
    assert_eq!(l.offsets, vec![0, 8192, 16384, 17408, 18432]);
    assert_eq!(l.total, 26624);
    let b = BufferBinding { buffer: 1, offset: 0, range: 4 };
    let all = ProbeBindings {
        hidden: b,
        q: b,
        k: b,
        v: b,
        attn: b,
        pre_norm: b,
        qkv: b,
        post_norm: b,
    };
    let chain = probe_chain(&c, &all);
    assert_eq!(
        names(&chain),
        vec!["rms_norm", "qkv", "rope", "attention", "kv_write", "residual_add", "rms_norm"]
    );
}

#[test]
fn error_messages() {
    assert_eq!(Error::Vulkan("x".to_string()).message(), "Vulkan: x");
    assert_eq!(Error::Tokenizer("x".to_string()).message(), "Tokenizer: x");
    assert_eq!(Error::Io("x".to_string()).message(), "IO: x");
}

#[test]
fn cache_places_are_apart() {
    let b = Buffer { offset: 0, size: 0 };
    let c = config();
    let k = KvCache::in_buffers(&c, 4, b, b);
    let mut keys = Vec::new();
    for layer in 0..3 {
        for head in 0..2 {
            for pos in 0..4 {
                keys.push(k.k_offset(layer, head, pos));
                assert!(k.v_offset(layer, head, pos) + 128 <= 3 * 2 * 4 * 128);
            }
        }
    }
    keys.sort();
    assert!(keys.windows(2).all(|w| w[0] + 72 <= w[1]));
    assert_eq!(keys[keys.len() - 1] + 72, 3 * 2 * 4 * 72);
}

#[test]
fn weight_pool_refuses() {
    let mut b = header(3, 0);
    put_tensor(&mut b, "empty", &[0], 1, 150);
    put_tensor(&mut b, "big", &[1], 1, 150);
    put_tensor(&mut b, "last", &[1], 1, 450);
    b.resize(460, 0);
    let f = GgufFile::parse(&b).ok().unwrap();
    let mut pool = WeightPool::new(256);
    assert_eq!(
        pool.upload(&f, "empty").err().unwrap().message(),
        "API: zero-sized tensor: empty"
    );
    assert_eq!(
        pool.upload(&f, "big").err().unwrap().message(),
        "Out of memory: needed 300, available 256"
    );
    assert_eq!(
        pool.upload(&f, "none").err().unwrap().message(),
        "API: tensor not found: none"
    );
    assert!(pool.upload(&f, "last").is_ok());
}

#[test]
fn chat_prompts_end_with_the_assistant() {
    let t = SpecialTokens::resolve(Some(100), Some(101), 7);
    let hi = Message { role: "user".to_string(), content: MessageContent::Text("hi".to_string()) };
    let one = ChatTemplate::apply(&[hi.clone()], Some("be brief"), t);
    let two = ChatTemplate::apply(&[hi.clone(), hi], Some("be brief"), t);
    let text = |p: &Piece| match p {
        Piece::Text(s) => s.clone(),
        Piece::Token(n) => format!("<{}>", n),
    };
    let a: Vec<String> = one.iter().map(text).collect();
    let b: Vec<String> = two.iter().map(text).collect();
    assert_eq!(a[a.len() - 2..], ["<100>", "assistant\n"]);
    assert_eq!(a[..5], ["<100>", "system\n", "be brief", "<101>", "<10>"]);
    assert_eq!(b[..a.len() - 2], a[..a.len() - 2]);
    assert_eq!(b.len(), a.len() + 6);
}

#[test]
fn passes_have_one_length() {
    let mut e = engine();
    let many = e.prefill(&[1, 2, 3]).ok().unwrap().len();
    let one = e.decode().ok().unwrap().len();
    assert_eq!(many, one);
}
