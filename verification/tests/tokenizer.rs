use moe_680m::gguf::MetadataValue;
use moe_680m::tokenizer::{Tokenizer, TokenizerData};
use vstd::hash_map::StringHashMap;

fn data(tokens: &[&str], merges: &[&str]) -> TokenizerData {
    TokenizerData {
        tokens: tokens.iter().map(|s| s.to_string()).collect(),
        scores: vec![],
        merges: merges.iter().map(|s| s.to_string()).collect(),
        bos_id: 1,
        eos_id: 2,
        model_type: "gpt2".to_string(),
    }
}

fn tokenizer(tokens: &[&str], merges: &[&str]) -> Tokenizer {
    match Tokenizer::from_data(&data(tokens, merges)) {
        Ok(t) => t,
        Err(e) => panic!("{}", e),
    }
}

fn texts(v: &[&str]) -> MetadataValue {
    MetadataValue::Array(v.iter().map(|s| MetadataValue::String(s.to_string())).collect())
}

#[test]
fn encodes_known_words_and_spaces() {
    let t = tokenizer(&["hello", "world", " "], &[]);
    assert_eq!(t.encode("hello  world"), vec![0, 2, 1]);
    assert_eq!(t.encode("  hello\n"), vec![0]);
    assert_eq!(t.encode(""), Vec::<u32>::new());
}

#[test]
fn merges_from_the_left() {
    let t = tokenizer(&["a", "b", "c", "ab"], &["a b", "ab c"]);
    assert_eq!(t.encode("abc"), vec![5]);
    assert_eq!(t.encode("abb"), vec![3, 1]);
    assert_eq!(t.encode("axb"), vec![3]);
    assert_eq!(t.vocab_size(), 4);
}

#[test]
fn rules_on_unknown_tokens_are_passed_over() {
    let t = tokenizer(&["a", "b"], &["a x", "ab", "a b"]);
    assert_eq!(t.encode("ab"), vec![4]);
    assert_eq!(t.decode(&[4]), "");
}

#[test]
fn of_equal_tokens_the_last_counts() {
    let t = tokenizer(&["a", "b", "a"], &[]);
    assert_eq!(t.encode("a"), vec![2]);
}

#[test]
fn decodes_bytes_and_text() {
    let t = tokenizer(&["<0x0A>", "hi", "<0xzz>", "<0x+5>", "<0xé>"], &[]);
    assert_eq!(t.decode(&[1, 0, 1]), "hi\nhi");
    assert_eq!(t.decode(&[2, 9, 4]), "<0xzz><0xé>");
    assert_eq!(t.decode(&[3]), "\u{5}");
}

#[test]
fn decoding_piece_by_piece_is_decoding_at_once() {
    let t = tokenizer(&["a", "<0xFF>", "bc"], &[]);
    let ids = [2u32, 1, 0, 7, 2];
    let pieces: String = ids.iter().map(|i| t.decode(&[*i])).collect();
    assert_eq!(pieces, t.decode(&ids));
}

#[test]
fn tokens_round_trip() {
    let words = ["alpha", "beta", "ünï"];
    let t = tokenizer(&words, &["a b"]);
    for w in words {
        assert_eq!(t.encode(w).len(), 1);
        assert_eq!(t.decode(&t.encode(w)), w);
    }
}

#[test]
fn reads_the_metadata() {
    let mut m: StringHashMap<MetadataValue> = StringHashMap::new();
    m.insert("tokenizer.ggml.tokens".to_string(), texts(&["a", "b"]));
    m.insert("tokenizer.ggml.merges".to_string(), texts(&["a b"]));
    m.insert(
        "tokenizer.ggml.scores".to_string(),
        MetadataValue::Array(vec![MetadataValue::Float32(7)]),
    );
    m.insert("tokenizer.ggml.bos_token_id".to_string(), MetadataValue::Uint32(11));
    m.insert("tokenizer.ggml.eos_token_id".to_string(), MetadataValue::Uint64(0x1_0000_000c));
    let d = match TokenizerData::from_gguf_meta(&m) {
        Ok(d) => d,
        Err(e) => panic!("{}", e),
    };
    assert_eq!(d.tokens, vec!["a", "b"]);
    assert_eq!(d.merges, vec!["a b"]);
    assert_eq!(d.scores, vec![7]);
    assert_eq!(d.bos_id, 11);
    assert_eq!(d.eos_id, 12);
    assert_eq!(d.model_type, "gpt2");
}

#[test]
fn tokens_must_be_texts() {
    let mut m: StringHashMap<MetadataValue> = StringHashMap::new();
    m.insert(
        "tokenizer.ggml.tokens".to_string(),
        MetadataValue::Array(vec![
            MetadataValue::String("a".to_string()),
            MetadataValue::Uint32(1),
        ]),
    );
    assert_eq!(
        TokenizerData::from_gguf_meta(&m).err(),
        Some("Missing tokenizer.ggml.tokens".to_string())
    );
    m.insert("tokenizer.ggml.tokens".to_string(), texts(&["a"]));
    m.insert("tokenizer.ggml.model".to_string(), MetadataValue::String("llama".to_string()));
    m.insert("tokenizer.ggml.eos_token_id".to_string(), MetadataValue::Int64(5));
    let d = TokenizerData::from_gguf_meta(&m).ok().map(|d| (d.model_type, d.eos_id, d.bos_id));
    assert_eq!(d, Some(("llama".to_string(), 0, 0)));
}
