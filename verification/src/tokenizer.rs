//! The vocabulary of a model, and text as token ids.

use crate::gguf;
use crate::gguf::{MetaModel, MetadataValue};
use crate::text;
use std::collections::HashMap;
use vstd::hash_map::StringHashMap;
use vstd::prelude::*;

verus! {

/// What a model file says about its tokens. Scores are single-precision bit
/// patterns.
pub struct TokenizerData {
    pub tokens: Vec<String>,
    pub scores: Vec<u32>,
    pub merges: Vec<String>,
    pub bos_id: u32,
    pub eos_id: u32,
    pub model_type: String,
}

/// The texts under `key`: an array of nothing but texts.
pub open spec fn texts_under(
    m: Map<Seq<char>, MetaModel>,
    key: Seq<char>,
) -> Option<Seq<Seq<char>>> {
    if m.contains_key(key) && (m[key] matches MetaModel::Array(a) && forall|i: int|
        0 <= i < a.len() ==> #[trigger] a[i] is Text) {
        let a = m[key]->Array_0;
        Some(Seq::new(a.len(), |i: int| a[i]->Text_0))
    } else {
        None
    }
}

/// The numbers under `key`: an array of nothing but single-precision numbers.
pub open spec fn floats_under(m: Map<Seq<char>, MetaModel>, key: Seq<char>) -> Option<Seq<u32>> {
    if m.contains_key(key) && (m[key] matches MetaModel::Array(a) && forall|i: int|
        0 <= i < a.len() ==> #[trigger] a[i] is Float32) {
        let a = m[key]->Array_0;
        Some(Seq::new(a.len(), |i: int| a[i]->Float32_0))
    } else {
        None
    }
}

/// The token id under `key`; zero when there is none.
pub open spec fn id_under(m: Map<Seq<char>, MetaModel>, key: Seq<char>) -> u32 {
    if m.contains_key(key) {
        match m[key] {
            MetaModel::Uint32(x) => x,
            MetaModel::Int32(x) => x as u32,
            MetaModel::Uint64(x) => x as u32,
            _ => 0,
        }
    } else {
        0
    }
}

/// `o`, or nothing at all.
pub open spec fn or_empty<T>(o: Option<Seq<T>>) -> Seq<T> {
    match o {
        Some(s) => s,
        None => Seq::empty(),
    }
}

fn get_texts(meta: &StringHashMap<MetadataValue>, key: &str) -> (r: Option<Vec<String>>)
    ensures
        match (r, texts_under(gguf::table_model(meta@), key@)) {
            (Some(v), Some(t)) => text::texts(v@) == t,
            (None, None) => true,
            _ => false,
        },
{
    let ghost m = gguf::table_model(meta@);
    match meta.get(key) {
        Some(MetadataValue::Array(a)) => {
            let ghost all = m[key@]->Array_0;
            let mut out: Vec<String> = Vec::new();
            let mut i: usize = 0;
            while i < a.len()
                invariant
                    i <= a@.len(),
                    m == gguf::table_model(meta@),
                    m.contains_key(key@),
                    m[key@] == MetaModel::Array(all),
                    all.len() == a@.len(),
                    forall|k: int| 0 <= k < a@.len() ==> #[trigger] all[k] == a@[k].model(),
                    out@.len() == i,
                    forall|k: int|
                        0 <= k < i ==> #[trigger] all[k] is Text && all[k]->Text_0 == out@[k]@,
                decreases a.len() - i,
            {
                assert(all[i as int] == a@[i as int].model());
                match &a[i] {
                    MetadataValue::String(s) => {
                        out.push(s.clone());
                    },
                    _ => {
                        return None;
                    },
                }
                i = i + 1;
            }
            assert(text::texts(out@) =~= texts_under(m, key@)->0);
            Some(out)
        },
        _ => None,
    }
}

fn get_floats(meta: &StringHashMap<MetadataValue>, key: &str) -> (r: Option<Vec<u32>>)
    ensures
        match (r, floats_under(gguf::table_model(meta@), key@)) {
            (Some(v), Some(t)) => v@ == t,
            (None, None) => true,
            _ => false,
        },
{
    let ghost m = gguf::table_model(meta@);
    match meta.get(key) {
        Some(MetadataValue::Array(a)) => {
            let ghost all = m[key@]->Array_0;
            let mut out: Vec<u32> = Vec::new();
            let mut i: usize = 0;
            while i < a.len()
                invariant
                    i <= a@.len(),
                    m == gguf::table_model(meta@),
                    m.contains_key(key@),
                    m[key@] == MetaModel::Array(all),
                    all.len() == a@.len(),
                    forall|k: int| 0 <= k < a@.len() ==> #[trigger] all[k] == a@[k].model(),
                    out@.len() == i,
                    forall|k: int|
                        0 <= k < i ==> #[trigger] all[k] is Float32 && all[k]->Float32_0 == out@[k],
                decreases a.len() - i,
            {
                assert(all[i as int] == a@[i as int].model());
                match &a[i] {
                    MetadataValue::Float32(x) => {
                        out.push(*x);
                    },
                    _ => {
                        return None;
                    },
                }
                i = i + 1;
            }
            assert(out@ =~= floats_under(m, key@)->0);
            Some(out)
        },
        _ => None,
    }
}

fn get_id(meta: &StringHashMap<MetadataValue>, key: &str) -> (r: u32)
    ensures
        r == id_under(gguf::table_model(meta@), key@),
{
    match meta.get(key) {
        Some(v) => match v {
            MetadataValue::Uint32(x) => *x,
            MetadataValue::Int32(x) => *x as u32,
            MetadataValue::Uint64(x) => *x as u32,
            _ => 0,
        },
        None => 0,
    }
}

impl TokenizerData {
    /// The data is what the metadata says; a model that names no tokenizer is
    /// taken for "gpt2".
    pub open spec fn describes(&self, m: Map<Seq<char>, MetaModel>) -> bool {
        &&& texts_under(m, "tokenizer.ggml.tokens"@) == Some(text::texts(self.tokens@))
        &&& self.scores@ == or_empty(floats_under(m, "tokenizer.ggml.scores"@))
        &&& text::texts(self.merges@) == or_empty(texts_under(m, "tokenizer.ggml.merges"@))
        &&& self.bos_id == id_under(m, "tokenizer.ggml.bos_token_id"@)
        &&& self.eos_id == id_under(m, "tokenizer.ggml.eos_token_id"@)
        &&& self.model_type@ == match gguf::text_under(m, "tokenizer.ggml.model"@) {
            Some(t) => t,
            None => "gpt2"@,
        }
    }

    /// Reads the metadata of a model file; the tokens must be there.
    pub fn from_gguf_meta(meta: &StringHashMap<MetadataValue>) -> (r: Result<Self, String>)
        ensures
            match r {
                Ok(d) => d.describes(gguf::table_model(meta@)),
                Err(e) => texts_under(gguf::table_model(meta@), "tokenizer.ggml.tokens"@) is None
                    && e@ == "Missing tokenizer.ggml.tokens"@,
            },
    {
        let model_type: String = match gguf::meta_get_str(meta, "tokenizer.ggml.model") {
            Ok(s) => s,
            Err(_) => "gpt2".to_owned(),
        };
        let tokens: Vec<String> = match get_texts(meta, "tokenizer.ggml.tokens") {
            Some(v) => v,
            None => {
                return Err("Missing tokenizer.ggml.tokens".to_owned());
            },
        };
        let scores: Vec<u32> = match get_floats(meta, "tokenizer.ggml.scores") {
            Some(v) => v,
            None => Vec::new(),
        };
        let merges: Vec<String> = match get_texts(meta, "tokenizer.ggml.merges") {
            Some(v) => v,
            None => Vec::new(),
        };
        assert(text::texts(Seq::<String>::empty()) =~= Seq::<Seq<char>>::empty());
        Ok(
            TokenizerData {
                tokens,
                scores,
                merges,
                bos_id: get_id(meta, "tokenizer.ggml.bos_token_id"),
                eos_id: get_id(meta, "tokenizer.ggml.eos_token_id"),
                model_type,
            },
        )
    }
}

/// Token ids by text, and what two neighbouring ids are merged into.
pub struct Vocabulary {
    pub ids: Map<Seq<char>, u32>,
    pub merges: Map<(u32, u32), u32>,
}

/// The ids of the first `n` tokens; of equal tokens the last counts.
pub open spec fn token_ids(tokens: Seq<Seq<char>>, n: nat) -> Map<Seq<char>, u32>
    decreases n,
{
    if n == 0 {
        Map::empty()
    } else {
        token_ids(tokens, (n - 1) as nat).insert(tokens[n - 1], (n - 1) as u32)
    }
}

/// The place of the first space from `from` on, or the length.
pub open spec fn space_from(s: Seq<char>, from: int) -> int
    decreases s.len() - from,
{
    if from >= s.len() || s[from] == ' ' {
        from
    } else {
        space_from(s, from + 1)
    }
}

/// A merge rule is two tokens with a space between them.
pub open spec fn rule_parts(rule: Seq<char>) -> Option<(Seq<char>, Seq<char>)> {
    let at = space_from(rule, 0);
    if at < rule.len() {
        Some((rule.take(at), rule.skip(at + 1)))
    } else {
        None
    }
}

/// The vocabulary with one more merge rule, whose result gets the id `fresh`
/// unless it has one. A rule on unknown tokens changes nothing.
pub open spec fn with_rule(v: Vocabulary, rule: Seq<char>, fresh: u32) -> Vocabulary {
    match rule_parts(rule) {
        Some((a, b)) => if v.ids.contains_key(a) && v.ids.contains_key(b) {
            let whole = a + b;
            let ids = if v.ids.contains_key(whole) {
                v.ids
            } else {
                v.ids.insert(whole, fresh)
            };
            Vocabulary { ids, merges: v.merges.insert((v.ids[a], v.ids[b]), ids[whole]) }
        } else {
            v
        },
        None => v,
    }
}

/// The vocabulary of these tokens and the first `n` merge rules.
pub open spec fn vocabulary(
    tokens: Seq<Seq<char>>,
    rules: Seq<Seq<char>>,
    n: nat,
) -> Vocabulary
    decreases n,
{
    if n == 0 {
        Vocabulary { ids: token_ids(tokens, tokens.len()), merges: Map::empty() }
    } else {
        with_rule(
            vocabulary(tokens, rules, (n - 1) as nat),
            rules[n - 1],
            (tokens.len() + n - 1) as u32,
        )
    }
}

/// The first place from `from` on where a merge applies, or the length.
pub open spec fn merge_from(v: Vocabulary, s: Seq<u32>, from: int) -> int
    decreases s.len() - from,
{
    if from + 1 >= s.len() {
        s.len() as int
    } else if v.merges.contains_key((s[from], s[from + 1])) {
        from
    } else {
        merge_from(v, s, from + 1)
    }
}

proof fn lemma_merge_from(v: Vocabulary, s: Seq<u32>, from: int)
    requires
        0 <= from <= s.len(),
    ensures
        from <= merge_from(v, s, from) <= s.len(),
        merge_from(v, s, from) < s.len() ==> merge_from(v, s, from) + 1 < s.len()
            && v.merges.contains_key(
            (s[merge_from(v, s, from)], s[merge_from(v, s, from) + 1]),
        ),
    decreases s.len() - from,
{
    if from + 1 < s.len() && !v.merges.contains_key((s[from], s[from + 1])) {
        lemma_merge_from(v, s, from + 1);
    }
}

/// Two neighbours at `i` replaced by what they merge into.
pub open spec fn merged_at(v: Vocabulary, s: Seq<u32>, i: int) -> Seq<u32> {
    s.take(i).push(v.merges[(s[i], s[i + 1])]) + s.skip(i + 2)
}

/// Merges are applied from the left until none applies.
pub open spec fn fully_merged(v: Vocabulary, s: Seq<u32>) -> Seq<u32>
    decreases s.len(),
    via merging_shrinks
{
    let i = merge_from(v, s, 0);
    if i < s.len() {
        fully_merged(v, merged_at(v, s, i))
    } else {
        s
    }
}

#[via_fn]
proof fn merging_shrinks(v: Vocabulary, s: Seq<u32>) {
    lemma_merge_from(v, s, 0);
}

/// The ids of the characters of a word; characters without an id are left out.
pub open spec fn char_ids(v: Vocabulary, w: Seq<char>) -> Seq<u32>
    decreases w.len(),
{
    if w.len() == 0 {
        Seq::empty()
    } else if v.ids.contains_key(seq![w.last()]) {
        char_ids(v, w.drop_last()).push(v.ids[seq![w.last()]])
    } else {
        char_ids(v, w.drop_last())
    }
}

/// The ids of a word: its own, or those of its characters, merged.
pub open spec fn word_ids(v: Vocabulary, w: Seq<char>) -> Seq<u32> {
    if v.ids.contains_key(w) {
        seq![v.ids[w]]
    } else {
        fully_merged(v, char_ids(v, w))
    }
}

/// The id of a space, where there is one.
pub open spec fn space_ids(v: Vocabulary) -> Seq<u32> {
    if v.ids.contains_key(" "@) {
        seq![v.ids[" "@]]
    } else {
        Seq::empty()
    }
}

/// The ids of words, with a space before each but where nothing stands yet.
pub open spec fn words_ids(v: Vocabulary, ws: Seq<Seq<char>>) -> Seq<u32>
    decreases ws.len(),
{
    if ws.len() == 0 {
        Seq::empty()
    } else {
        let before = words_ids(v, ws.drop_last());
        let space = if before.len() > 0 {
            space_ids(v)
        } else {
            Seq::empty()
        };
        before + space + word_ids(v, ws.last())
    }
}

/// The value of a hexadecimal digit.
pub open spec fn hex_value(c: char) -> Option<u8> {
    if '0' <= c <= '9' {
        Some((c as int - '0' as int) as u8)
    } else if 'a' <= c <= 'f' {
        Some((c as int - 'a' as int + 10) as u8)
    } else if 'A' <= c <= 'F' {
        Some((c as int - 'A' as int + 10) as u8)
    } else {
        None
    }
}

/// The byte that a token like `<0x0A>` stands for. A plus sign may take the
/// place of the first digit.
pub open spec fn byte_token(t: Seq<char>) -> Option<u8> {
    if t.len() == 6 && t[0] == '<' && t[1] == '0' && t[2] == 'x' && t[5] == '>' {
        match (hex_value(t[3]), hex_value(t[4])) {
            (Some(a), Some(b)) => Some((16 * a + b) as u8),
            (None, Some(b)) => if t[3] == '+' {
                Some(b)
            } else {
                None
            },
            _ => None,
        }
    } else {
        None
    }
}

/// The text of one token.
pub open spec fn token_text(t: Seq<char>) -> Seq<char> {
    match byte_token(t) {
        Some(b) => seq![b as char],
        None => t,
    }
}

/// The text of token ids; ids without a token have none.
pub open spec fn ids_text(tokens: Seq<Seq<char>>, ids: Seq<u32>) -> Seq<char>
    decreases ids.len(),
{
    if ids.len() == 0 {
        Seq::empty()
    } else {
        let before = ids_text(tokens, ids.drop_last());
        if ids.last() < tokens.len() {
            before + token_text(tokens[ids.last() as int])
        } else {
            before
        }
    }
}

/// Two ids as one key.
pub open spec fn pair_key(p: (u32, u32)) -> u64 {
    (p.0 * 0x1_0000_0000 + p.1) as u64
}

/// Merges by pair, from merges by key.
pub open spec fn by_pair(m: Map<u64, u32>) -> Map<(u32, u32), u32> {
    Map::new(|p: (u32, u32)| m.contains_key(pair_key(p)), |p: (u32, u32)| m[pair_key(p)])
}

/// Splits text into tokens and joins it again.
pub struct Tokenizer {
    id_to_token: Vec<String>,
    token_to_id: StringHashMap<u32>,
    merges: HashMap<u64, u32>,
    pub bos_id: u32,
    pub eos_id: u32,
}

fn key_of(l: u32, r: u32) -> (k: u64)
    ensures
        k == pair_key((l, r)),
{
    l as u64 * 0x1_0000_0000 + r as u64
}

proof fn lemma_by_pair_insert(m: Map<u64, u32>, l: u32, r: u32, id: u32)
    ensures
        by_pair(m.insert(pair_key((l, r)), id)) == by_pair(m).insert((l, r), id),
{
    assert(by_pair(m.insert(pair_key((l, r)), id)) =~= by_pair(m).insert((l, r), id));
}

/// The place of the first space, or the length.
fn find_space(s: &[char]) -> (i: usize)
    ensures
        i == space_from(s@, 0),
        i <= s@.len(),
{
    let mut i: usize = 0;
    while i < s.len() && s[i] != ' '
        invariant
            i <= s@.len(),
            space_from(s@, 0) == space_from(s@, i as int),
        decreases s.len() - i,
    {
        i = i + 1;
    }
    i
}

fn hex_of(c: char) -> (r: Option<u8>)
    ensures
        r == hex_value(c),
        r matches Some(x) ==> x < 16,
{
    if '0' <= c && c <= '9' {
        Some((c as u32 - 48) as u8)
    } else if 'a' <= c && c <= 'f' {
        Some((c as u32 - 97 + 10) as u8)
    } else if 'A' <= c && c <= 'F' {
        Some((c as u32 - 65 + 10) as u8)
    } else {
        None
    }
}

fn byte_of(t: &[char]) -> (r: Option<u8>)
    ensures
        r == byte_token(t@),
{
    if t.len() == 6 && t[0] == '<' && t[1] == '0' && t[2] == 'x' && t[5] == '>' {
        match (hex_of(t[3]), hex_of(t[4])) {
            (Some(a), Some(b)) => Some(16 * a + b),
            (None, Some(b)) => if t[3] == '+' {
                Some(b)
            } else {
                None
            },
            _ => None,
        }
    } else {
        None
    }
}

impl Tokenizer {
    /// The tokens by id.
    pub closed spec fn tokens(&self) -> Seq<Seq<char>> {
        text::texts(self.id_to_token@)
    }

    /// What text and merges are looked up in.
    pub closed spec fn vocabulary(&self) -> Vocabulary {
        Vocabulary { ids: self.token_to_id@, merges: by_pair(self.merges@) }
    }

    /// The id that starts a text.
    pub closed spec fn bos(&self) -> u32 {
        self.bos_id
    }

    /// The id that ends a text.
    pub closed spec fn eos(&self) -> u32 {
        self.eos_id
    }

    /// The tokenizer of this data.
    pub fn from_data(data: &TokenizerData) -> (r: Result<Self, String>)
        requires
            data.tokens@.len() + data.merges@.len() <= u32::MAX,
        ensures
            r matches Ok(t) && {
                &&& t.tokens() == text::texts(data.tokens@)
                &&& t.vocabulary() == vocabulary(
                    text::texts(data.tokens@),
                    text::texts(data.merges@),
                    data.merges@.len(),
                )
                &&& t.bos() == data.bos_id
                &&& t.eos() == data.eos_id
            },
    {
        broadcast use vstd::std_specs::hash::group_hash_axioms;

        let ghost tokens = text::texts(data.tokens@);
        let ghost rules = text::texts(data.merges@);
        let mut id_to_token: Vec<String> = Vec::new();
        let mut token_to_id: StringHashMap<u32> = StringHashMap::new();
        let mut i: usize = 0;
        while i < data.tokens.len()
            invariant
                i <= data.tokens@.len(),
                tokens == text::texts(data.tokens@),
                data.tokens@.len() + data.merges@.len() <= u32::MAX,
                id_to_token@.len() == i,
                forall|k: int| 0 <= k < i ==> (#[trigger] id_to_token@[k])@ == data.tokens@[k]@,
                token_to_id@ == token_ids(tokens, i as nat),
            decreases data.tokens.len() - i,
        {
            let t: &String = &data.tokens[i];
            id_to_token.push(t.clone());
            token_to_id.insert(t.clone(), i as u32);
            i = i + 1;
        }
        assert(text::texts(id_to_token@) =~= tokens);
        let mut merges: HashMap<u64, u32> = HashMap::new();
        assert(by_pair(merges@) =~= Map::<(u32, u32), u32>::empty());
        let mut j: usize = 0;
        while j < data.merges.len()
            invariant
                j <= data.merges@.len(),
                tokens == text::texts(data.tokens@),
                rules == text::texts(data.merges@),
                data.tokens@.len() + data.merges@.len() <= u32::MAX,
                token_to_id@ == vocabulary(tokens, rules, j as nat).ids,
                by_pair(merges@) == vocabulary(tokens, rules, j as nat).merges,
            decreases data.merges.len() - j,
        {
            let ghost v = vocabulary(tokens, rules, j as nat);
            let rule: Vec<char> = text::to_chars(data.merges[j].as_str());
            assert(rule@ == rules[j as int]);
            let at: usize = find_space(rule.as_slice());
            let fresh: u32 = data.tokens.len() as u32 + j as u32;
            if at < rule.len() {
                let left: &[char] = vstd::slice::slice_subrange(rule.as_slice(), 0, at);
                let right: &[char] = vstd::slice::slice_subrange(
                    rule.as_slice(),
                    at + 1,
                    rule.len(),
                );
                let a: String = text::from_chars(left);
                let b: String = text::from_chars(right);
                assert(a@ =~= rules[j as int].take(at as int));
                assert(b@ =~= rules[j as int].skip(at + 1));
                let l: Option<u32> = match token_to_id.get(a.as_str()) {
                    Some(id) => Some(*id),
                    None => None,
                };
                let r: Option<u32> = match token_to_id.get(b.as_str()) {
                    Some(id) => Some(*id),
                    None => None,
                };
                if let (Some(l), Some(r)) = (l, r) {
                    let mut whole: String = a;
                    whole.append(b.as_str());
                    let known: Option<u32> = match token_to_id.get(whole.as_str()) {
                        Some(id) => Some(*id),
                        None => None,
                    };
                    let id: u32 = match known {
                        Some(id) => id,
                        None => {
                            token_to_id.insert(whole, fresh);
                            fresh
                        },
                    };
                    proof {
                        lemma_by_pair_insert(merges@, l, r, id);
                    }
                    merges.insert(key_of(l, r), id);
                }
            }
            j = j + 1;
        }
        Ok(
            Tokenizer {
                id_to_token,
                token_to_id,
                merges,
                bos_id: data.bos_id,
                eos_id: data.eos_id,
            },
        )
    }

    fn lookup(&self, s: &str) -> (r: Option<u32>)
        ensures
            match r {
                Some(id) => self.vocabulary().ids.contains_key(s@) && id
                    == self.vocabulary().ids[s@],
                None => !self.vocabulary().ids.contains_key(s@),
            },
    {
        match self.token_to_id.get(s) {
            Some(id) => Some(*id),
            None => None,
        }
    }

    fn find_merge(&self, s: &Vec<u32>) -> (r: Option<(usize, u32)>)
        ensures
            match r {
                Some((i, id)) => i == merge_from(self.vocabulary(), s@, 0) && i + 1 < s@.len()
                    && id == self.vocabulary().merges[(s@[i as int], s@[i + 1])],
                None => merge_from(self.vocabulary(), s@, 0) == s@.len(),
            },
    {
        broadcast use vstd::std_specs::hash::group_hash_axioms;

        let mut i: usize = 0;
        while i < s.len() && i + 1 < s.len()
            invariant
                i <= s@.len(),
                merge_from(self.vocabulary(), s@, 0) == merge_from(
                    self.vocabulary(),
                    s@,
                    i as int,
                ),
            decreases s.len() - i,
        {
            let k: u64 = key_of(s[i], s[i + 1]);
            match self.merges.get(&k) {
                Some(id) => {
                    assert(self.vocabulary().merges.contains_key((s@[i as int], s@[i + 1])));
                    return Some((i, *id));
                },
                None => {},
            }
            i = i + 1;
        }
        None
    }

    fn push_word(&self, ids: &mut Vec<u32>, word: &str)
        ensures
            final(ids)@ == old(ids)@ + word_ids(self.vocabulary(), word@),
    {
        let ghost v = self.vocabulary();
        let ghost start = ids@;
        if let Some(id) = self.lookup(word) {
            ids.push(id);
            assert(ids@ =~= start + word_ids(v, word@));
            return;
        }
        let chars: Vec<char> = text::to_chars(word);
        let mut bpe: Vec<u32> = Vec::new();
        let mut i: usize = 0;
        while i < chars.len()
            invariant
                i <= chars@.len(),
                v == self.vocabulary(),
                bpe@ == char_ids(v, chars@.take(i as int)),
            decreases chars.len() - i,
        {
            let ghost next = chars@.take(i + 1);
            assert(next.drop_last() =~= chars@.take(i as int));
            let mut one: String = String::new();
            one.push(chars[i]);
            assert(one@ =~= seq![next.last()]);
            if let Some(id) = self.lookup(one.as_str()) {
                bpe.push(id);
            }
            i = i + 1;
        }
        assert(chars@.take(i as int) =~= word@);
        loop
            invariant
                v == self.vocabulary(),
                fully_merged(v, bpe@) == fully_merged(v, char_ids(v, word@)),
            ensures
                bpe@ == fully_merged(v, char_ids(v, word@)),
            decreases bpe.len(),
        {
            match self.find_merge(&bpe) {
                Some((k, id)) => {
                    let ghost before = bpe@;
                    bpe.set(k, id);
                    bpe.remove(k + 1);
                    assert(bpe@ =~= merged_at(v, before, k as int));
                },
                None => {
                    break;
                },
            }
        }
        let mut k: usize = 0;
        while k < bpe.len()
            invariant
                k <= bpe@.len(),
                ids@ == start + bpe@.take(k as int),
            decreases bpe.len() - k,
        {
            ids.push(bpe[k]);
            k = k + 1;
            assert(ids@ =~= start + bpe@.take(k as int));
        }
        assert(bpe@.take(k as int) =~= bpe@);
    }

    /// The token ids of a text.
    pub fn encode(&self, text: &str) -> (ids: Vec<u32>)
        ensures
            ids@ == words_ids(self.vocabulary(), text::words(text@)),
    {
        let ghost v = self.vocabulary();
        let chars: Vec<char> = text::to_chars(text);
        let words: Vec<String> = text::split_words(chars.as_slice());
        let ghost ws = text::texts(words@);
        let mut ids: Vec<u32> = Vec::new();
        let mut i: usize = 0;
        while i < words.len()
            invariant
                i <= words@.len(),
                v == self.vocabulary(),
                ws == text::texts(words@),
                ids@ == words_ids(v, ws.take(i as int)),
            decreases words.len() - i,
        {
            let ghost next = ws.take(i + 1);
            assert(next.drop_last() =~= ws.take(i as int));
            if ids.len() > 0 {
                if let Some(id) = self.lookup(" ") {
                    ids.push(id);
                }
            }
            self.push_word(&mut ids, words[i].as_str());
            i = i + 1;
            assert(ids@ =~= words_ids(v, next));
        }
        assert(ws.take(i as int) =~= ws);
        ids
    }

    /// The text of token ids.
    pub fn decode(&self, ids: &[u32]) -> (s: String)
        ensures
            s@ == ids_text(self.tokens(), ids@),
    {
        let mut out: String = String::new();
        let mut i: usize = 0;
        while i < ids.len()
            invariant
                i <= ids@.len(),
                out@ == ids_text(self.tokens(), ids@.take(i as int)),
            decreases ids.len() - i,
        {
            let ghost next = ids@.take(i + 1);
            assert(next.drop_last() =~= ids@.take(i as int));
            let id: usize = ids[i] as usize;
            if id < self.id_to_token.len() {
                let t: &String = &self.id_to_token[id];
                let chars: Vec<char> = text::to_chars(t.as_str());
                match byte_of(chars.as_slice()) {
                    Some(b) => {
                        out.push(b as char);
                    },
                    None => {
                        out.append(t.as_str());
                    },
                }
            }
            i = i + 1;
            assert(out@ =~= ids_text(self.tokens(), next));
        }
        assert(ids@.take(i as int) =~= ids@);
        out
    }

    /// How many tokens there are.
    pub fn vocab_size(&self) -> (n: usize)
        ensures
            n == self.tokens().len(),
    {
        self.id_to_token.len()
    }
}

/// Decoding piece by piece gives the same text as decoding at once.
pub proof fn law_decoding_streams(tokens: Seq<Seq<char>>, a: Seq<u32>, b: Seq<u32>)
    ensures
        ids_text(tokens, a + b) == ids_text(tokens, a) + ids_text(tokens, b),
    decreases b.len(),
{
    if b.len() == 0 {
        assert(a + b =~= a);
        assert(ids_text(tokens, a) + ids_text(tokens, b) =~= ids_text(tokens, a));
    } else {
        law_decoding_streams(tokens, a, b.drop_last());
        assert((a + b).drop_last() =~= a + b.drop_last());
        assert(ids_text(tokens, a + b) =~= ids_text(tokens, a) + ids_text(tokens, b));
    }
}

/// When merging ends, no merge applies any more.
pub proof fn law_no_merge_is_left(v: Vocabulary, s: Seq<u32>)
    ensures
        merge_from(v, fully_merged(v, s), 0) == fully_merged(v, s).len(),
        fully_merged(v, s).len() <= s.len(),
    decreases s.len(),
{
    let i = merge_from(v, s, 0);
    lemma_merge_from(v, s, 0);
    if i < s.len() {
        law_no_merge_is_left(v, merged_at(v, s, i));
    }
}

proof fn lemma_token_ids(tokens: Seq<Seq<char>>, n: nat, i: int)
    requires
        0 <= i < n <= tokens.len() <= u32::MAX,
    ensures
        token_ids(tokens, n).contains_key(tokens[i]),
        token_ids(tokens, n)[tokens[i]] < n,
        tokens[token_ids(tokens, n)[tokens[i]] as int] == tokens[i],
    decreases n,
{
    if i < n - 1 && tokens[i] != tokens[n - 1] {
        lemma_token_ids(tokens, (n - 1) as nat, i);
    }
}

/// A merge rule gives no token another id.
pub proof fn law_rules_keep_ids(
    tokens: Seq<Seq<char>>,
    rules: Seq<Seq<char>>,
    n: nat,
    t: Seq<char>,
)
    requires
        token_ids(tokens, tokens.len()).contains_key(t),
    ensures
        vocabulary(tokens, rules, n).ids.contains_key(t),
        vocabulary(tokens, rules, n).ids[t] == token_ids(tokens, tokens.len())[t],
    decreases n,
{
    if n > 0 {
        law_rules_keep_ids(tokens, rules, (n - 1) as nat, t);
    }
}

/// A token without white space that stands for no byte is encoded as one id,
/// and decoded it is itself again.
pub proof fn law_token_round_trips(
    tokens: Seq<Seq<char>>,
    rules: Seq<Seq<char>>,
    n: nat,
    i: int,
)
    requires
        0 <= i < tokens.len() <= u32::MAX,
        tokens[i].len() > 0,
        forall|k: int| 0 <= k < tokens[i].len() ==> !text::white_space(#[trigger] tokens[i][k]),
        byte_token(tokens[i]) is None,
    ensures
        words_ids(vocabulary(tokens, rules, n), text::words(tokens[i])).len() == 1,
        ids_text(
            tokens,
            words_ids(vocabulary(tokens, rules, n), text::words(tokens[i])),
        ) == tokens[i],
{
    let t = tokens[i];
    let v = vocabulary(tokens, rules, n);
    lemma_token_ids(tokens, tokens.len(), i);
    law_rules_keep_ids(tokens, rules, n, t);
    text::lemma_word_len(t);
    assert(text::word_len(t) == t.len()) by {
        if text::word_len(t) < t.len() {
            assert(!text::white_space(t[text::word_len(t) as int]));
        }
    }
    assert(t.take(t.len() as int) =~= t);
    assert(text::words(t.skip(t.len() as int)) =~= Seq::<Seq<char>>::empty());
    assert(text::words(t) =~= seq![t]);
    assert(seq![t].drop_last() =~= Seq::<Seq<char>>::empty());
    assert(words_ids(v, Seq::<Seq<char>>::empty()) =~= Seq::<u32>::empty());
    assert(words_ids(v, seq![t]) =~= seq![v.ids[t]]);
    assert(seq![v.ids[t]].drop_last() =~= Seq::<u32>::empty());
    assert(ids_text(tokens, Seq::<u32>::empty()) =~= Seq::<char>::empty());
    assert(ids_text(tokens, seq![v.ids[t]]) =~= t);
}

proof fn lemma_no_merge_from(v: Vocabulary, s: Seq<u32>, from: int, i: int)
    requires
        0 <= from <= i,
        i + 1 < s.len(),
        i < merge_from(v, s, from),
    ensures
        !v.merges.contains_key((s[i], s[i + 1])),
    decreases s.len() - from,
{
    if from < i {
        lemma_no_merge_from(v, s, from + 1, i);
    }
}

/// When merging ends, no two neighbours are a pair that merges.
pub proof fn law_no_pair_is_left(v: Vocabulary, s: Seq<u32>, i: int)
    requires
        0 <= i,
        i + 1 < fully_merged(v, s).len(),
    ensures
        !v.merges.contains_key((fully_merged(v, s)[i], fully_merged(v, s)[i + 1])),
{
    law_no_merge_is_left(v, s);
    lemma_no_merge_from(v, fully_merged(v, s), 0, i);
}

/// Of several pairs that merge, the first is merged first: its two ids give way
/// to the one they merge into, and merging goes on from there.
pub proof fn law_first_pair_merges(v: Vocabulary, s: Seq<u32>, i: int)
    requires
        0 <= i,
        i + 1 < s.len(),
        v.merges.contains_key((s[i], s[i + 1])),
        forall|j: int| 0 <= j < i ==> !v.merges.contains_key((#[trigger] s[j], s[j + 1])),
    ensures
        fully_merged(v, s) == fully_merged(
            v,
            s.subrange(0, i) + seq![v.merges[(s[i], s[i + 1])]] + s.subrange(i + 2, s.len() as int),
        ),
{
    let k = merge_from(v, s, 0);
    lemma_merge_from(v, s, 0);
    if k < i {
        assert(v.merges.contains_key((s[k], s[k + 1])));
    } else if k > i {
        lemma_no_merge_from(v, s, 0, i);
    }
    assert(merged_at(v, s, i) =~= s.subrange(0, i) + seq![v.merges[(s[i], s[i + 1])]]
        + s.subrange(i + 2, s.len() as int));
}

/// Where every word is a token and the space is one, the ids of `n` words are
/// theirs, with the space's id between every two.
pub proof fn law_spaces_stand_between_words(v: Vocabulary, ws: Seq<Seq<char>>, i: int)
    requires
        0 <= i < ws.len(),
        v.ids.contains_key(" "@),
        forall|k: int| 0 <= k < ws.len() ==> v.ids.contains_key(#[trigger] ws[k]),
    ensures
        words_ids(v, ws).len() == 2 * ws.len() - 1,
        words_ids(v, ws)[2 * i] == v.ids[ws[i]],
        i > 0 ==> words_ids(v, ws)[2 * i - 1] == v.ids[" "@],
    decreases ws.len(),
{
    let rest = ws.drop_last();
    assert(v.ids.contains_key(ws[ws.len() - 1]));
    assert(word_ids(v, ws.last()) =~= seq![v.ids[ws.last()]]);
    if rest.len() == 0 {
        assert(words_ids(v, rest) =~= Seq::<u32>::empty());
        assert(words_ids(v, ws) =~= seq![v.ids[ws[0]]]);
    } else {
        assert forall|k: int| 0 <= k < rest.len() implies v.ids.contains_key(
            #[trigger] rest[k],
        ) by {
            assert(rest[k] == ws[k]);
        }
        law_spaces_stand_between_words(v, rest, if i < rest.len() {
            i
        } else {
            0
        });
        let before = words_ids(v, rest);
        assert(words_ids(v, ws) =~= before.push(v.ids[" "@]).push(v.ids[ws.last()]));
    }
}

/// Words with a single space between every two.
pub open spec fn spaced(ws: Seq<Seq<char>>) -> Seq<char>
    decreases ws.len(),
{
    if ws.len() == 0 {
        Seq::empty()
    } else if ws.len() == 1 {
        ws[0]
    } else {
        spaced(ws.drop_last()) + seq![' '] + ws.last()
    }
}

/// The rules merge tokens into tokens, none of which stands for a byte.
pub open spec fn merges_tokens(tokens: Seq<Seq<char>>, rules: Seq<Seq<char>>, n: nat) -> bool {
    forall|j: int|
        0 <= j < n ==> (rule_parts(#[trigger] rules[j]) matches Some((a, b)) ==> tokens.contains(
            a + b,
        ) && byte_token(a) is None && byte_token(b) is None && byte_token(a + b) is None)
}

/// An id stands for a text.
spec fn stands_for(tokens: Seq<Seq<char>>, id: u32, t: Seq<char>) -> bool {
    id < tokens.len() && tokens[id as int] == t && byte_token(t) is None
}

/// Every merge is of two ids that stand for texts, into one that stands for both.
spec fn is_sound(tokens: Seq<Seq<char>>, v: Vocabulary) -> bool {
    &&& v.ids == token_ids(tokens, tokens.len())
    &&& forall|p: (u32, u32)| #[trigger]
        v.merges.contains_key(p) ==> exists|a: Seq<char>, b: Seq<char>|
            stands_for(tokens, p.0, a) && stands_for(tokens, p.1, b) && #[trigger] stands_for(
                tokens,
                v.merges[p],
                a + b,
            )
}

proof fn lemma_known_token(tokens: Seq<Seq<char>>, n: nat, t: Seq<char>)
    requires
        n <= tokens.len() <= u32::MAX,
        token_ids(tokens, n).contains_key(t),
    ensures
        token_ids(tokens, n)[t] < n,
        tokens[token_ids(tokens, n)[t] as int] == t,
    decreases n,
{
    if n > 0 && tokens[n - 1] != t {
        lemma_known_token(tokens, (n - 1) as nat, t);
    }
}

proof fn lemma_vocabulary_is_sound(tokens: Seq<Seq<char>>, rules: Seq<Seq<char>>, n: nat)
    requires
        tokens.len() <= u32::MAX,
        n <= rules.len(),
        merges_tokens(tokens, rules, n),
    ensures
        is_sound(tokens, vocabulary(tokens, rules, n)),
    decreases n,
{
    if n > 0 {
        lemma_vocabulary_is_sound(tokens, rules, (n - 1) as nat);
        let before = vocabulary(tokens, rules, (n - 1) as nat);
        let v = vocabulary(tokens, rules, n);
        let rule = rules[n - 1];
        match rule_parts(rule) {
            Some((a, b)) => {
                if before.ids.contains_key(a) && before.ids.contains_key(b) {
                    let at = choose|at: int| 0 <= at < tokens.len() && tokens[at] == a + b;
                    lemma_token_ids(tokens, tokens.len(), at);
                    lemma_known_token(tokens, tokens.len(), a);
                    lemma_known_token(tokens, tokens.len(), b);
                    let p = (before.ids[a], before.ids[b]);
                    assert(stands_for(tokens, v.merges[p], a + b));
                    assert(stands_for(tokens, p.0, a) && stands_for(tokens, p.1, b));
                    assert forall|q: (u32, u32)| #[trigger] v.merges.contains_key(q) implies
                        exists|c: Seq<char>, d: Seq<char>|
                        stands_for(tokens, q.0, c) && stands_for(tokens, q.1, d)
                            && #[trigger] stands_for(tokens, v.merges[q], c + d) by {
                        if q == p {
                            assert(stands_for(tokens, v.merges[q], a + b));
                        } else {
                            assert(before.merges.contains_key(q));
                            let (c, d) = choose|c: Seq<char>, d: Seq<char>|
                                stands_for(tokens, q.0, c) && stands_for(tokens, q.1, d)
                                    && #[trigger] stands_for(tokens, before.merges[q], c + d);
                            assert(stands_for(tokens, v.merges[q], c + d));
                        }
                    }
                }
            },
            None => {},
        }
    }
}

proof fn lemma_one_id(tokens: Seq<Seq<char>>, id: u32, t: Seq<char>)
    requires
        stands_for(tokens, id, t),
    ensures
        ids_text(tokens, seq![id]) == t,
{
    assert(seq![id].drop_last() =~= Seq::<u32>::empty());
    assert(ids_text(tokens, Seq::<u32>::empty()) =~= Seq::<char>::empty());
    assert(ids_text(tokens, seq![id]) =~= t);
}

/// Merging keeps the text.
proof fn lemma_merging_keeps_text(tokens: Seq<Seq<char>>, v: Vocabulary, s: Seq<u32>)
    requires
        is_sound(tokens, v),
    ensures
        ids_text(tokens, fully_merged(v, s)) == ids_text(tokens, s),
    decreases s.len(),
{
    let i = merge_from(v, s, 0);
    lemma_merge_from(v, s, 0);
    if i < s.len() {
        let p = (s[i], s[i + 1]);
        let m = merged_at(v, s, i);
        lemma_merging_keeps_text(tokens, v, m);
        assert(v.merges.contains_key(p));
        let (a, b) = choose|a: Seq<char>, b: Seq<char>|
            stands_for(tokens, p.0, a) && stands_for(tokens, p.1, b) && #[trigger] stands_for(
                tokens,
                v.merges[p],
                a + b,
            );
        lemma_one_id(tokens, p.0, a);
        lemma_one_id(tokens, p.1, b);
        lemma_one_id(tokens, v.merges[p], a + b);
        let head = s.take(i);
        let tail = s.skip(i + 2);
        assert(s =~= (head + (seq![p.0] + seq![p.1])) + tail);
        assert(m =~= (head + seq![v.merges[p]]) + tail);
        law_decoding_streams(tokens, head + (seq![p.0] + seq![p.1]), tail);
        law_decoding_streams(tokens, head, seq![p.0] + seq![p.1]);
        law_decoding_streams(tokens, seq![p.0], seq![p.1]);
        law_decoding_streams(tokens, head + seq![v.merges[p]], tail);
        law_decoding_streams(tokens, head, seq![v.merges[p]]);
    }
}

/// The ids of the characters of a word have its text, where all are tokens.
proof fn lemma_chars_keep_text(tokens: Seq<Seq<char>>, v: Vocabulary, w: Seq<char>)
    requires
        tokens.len() <= u32::MAX,
        v.ids == token_ids(tokens, tokens.len()),
        forall|i: int| 0 <= i < w.len() ==> tokens.contains(seq![#[trigger] w[i]]),
    ensures
        ids_text(tokens, char_ids(v, w)) == w,
    decreases w.len(),
{
    if w.len() == 0 {
        assert(ids_text(tokens, char_ids(v, w)) =~= w);
    } else {
        let rest = w.drop_last();
        assert forall|i: int| 0 <= i < rest.len() implies tokens.contains(
            seq![#[trigger] rest[i]],
        ) by {
            assert(tokens.contains(seq![w[i]]));
        }
        lemma_chars_keep_text(tokens, v, rest);
        let c = seq![w.last()];
        assert(tokens.contains(seq![w[w.len() - 1]]));
        let at = choose|at: int| 0 <= at < tokens.len() && tokens[at] == c;
        lemma_token_ids(tokens, tokens.len(), at);
        let id = v.ids[c];
        assert(char_ids(v, w).drop_last() =~= char_ids(v, rest));
        assert(char_ids(v, w).last() == id);
        assert(ids_text(tokens, char_ids(v, w)) =~= rest + c);
        assert(rest + c =~= w);
    }
}

/// A word that can be written with the tokens: it is one that stands for no
/// byte, or all its characters are.
pub open spec fn is_writable(tokens: Seq<Seq<char>>, w: Seq<char>) -> bool {
    &&& w.len() > 0
    &&& forall|i: int| 0 <= i < w.len() ==> !text::white_space(#[trigger] w[i])
    &&& byte_token(w) is None
    &&& tokens.contains(w) || forall|i: int|
        0 <= i < w.len() ==> tokens.contains(seq![#[trigger] w[i]])
}

proof fn lemma_word_keeps_text(tokens: Seq<Seq<char>>, v: Vocabulary, w: Seq<char>)
    requires
        tokens.len() <= u32::MAX,
        is_sound(tokens, v),
        is_writable(tokens, w),
    ensures
        ids_text(tokens, word_ids(v, w)) == w,
        word_ids(v, w).len() > 0,
{
    if v.ids.contains_key(w) {
        lemma_known_token(tokens, tokens.len(), w);
        lemma_one_id(tokens, v.ids[w], w);
    } else {
        if tokens.contains(w) {
            let at = choose|at: int| 0 <= at < tokens.len() && tokens[at] == w;
            lemma_token_ids(tokens, tokens.len(), at);
        }
        lemma_chars_keep_text(tokens, v, w);
        lemma_merging_keeps_text(tokens, v, char_ids(v, w));
    }
    if word_ids(v, w).len() == 0 {
        assert(ids_text(tokens, word_ids(v, w)) =~= Seq::<char>::empty());
    }
}

proof fn lemma_words_keep_text(tokens: Seq<Seq<char>>, v: Vocabulary, ws: Seq<Seq<char>>)
    requires
        tokens.len() <= u32::MAX,
        is_sound(tokens, v),
        tokens.contains(seq![' ']),
        forall|i: int| 0 <= i < ws.len() ==> is_writable(tokens, #[trigger] ws[i]),
    ensures
        ids_text(tokens, words_ids(v, ws)) == spaced(ws),
        ws.len() > 0 ==> words_ids(v, ws).len() > 0,
    decreases ws.len(),
{
    if ws.len() == 0 {
        assert(ids_text(tokens, words_ids(v, ws)) =~= spaced(ws));
    } else {
        let rest = ws.drop_last();
        assert forall|i: int| 0 <= i < rest.len() implies is_writable(
            tokens,
            #[trigger] rest[i],
        ) by {
            assert(rest[i] == ws[i]);
        }
        lemma_words_keep_text(tokens, v, rest);
        assert(is_writable(tokens, ws[ws.len() - 1]));
        lemma_word_keeps_text(tokens, v, ws.last());
        let before = words_ids(v, rest);
        let word = word_ids(v, ws.last());
        if rest.len() == 0 {
            assert(before =~= Seq::<u32>::empty());
            assert(words_ids(v, ws) =~= word);
        } else {
            reveal_strlit(" ");
            assert(" "@ =~= seq![' ']);
            let at = choose|at: int| 0 <= at < tokens.len() && tokens[at] == seq![' '];
            lemma_token_ids(tokens, tokens.len(), at);
            let space = seq![v.ids[seq![' ']]];
            lemma_one_id(tokens, v.ids[seq![' ']], seq![' ']);
            assert(words_ids(v, ws) == before + space + word);
            law_decoding_streams(tokens, before + space, word);
            law_decoding_streams(tokens, before, space);
        }
    }
}

/// The words of words with single spaces between them are those words.
proof fn lemma_spaced_splits(ws: Seq<Seq<char>>, tail: Seq<Seq<char>>, s: Seq<char>)
    requires
        forall|i: int| 0 <= i < ws.len() ==> is_word(#[trigger] ws[i]),
        text::words(s) == tail,
        ws.len() > 0 && s.len() > 0 ==> text::white_space(s[0]),
    ensures
        text::words(spaced(ws) + s) == ws + tail,
    decreases ws.len(),
{
    if ws.len() == 0 {
        assert(spaced(ws) + s =~= s);
        assert(ws + tail =~= tail);
    } else {
        let w = ws.last();
        let rest = ws.drop_last();
        assert(is_word(ws[ws.len() - 1]));
        assert forall|i: int| 0 <= i < rest.len() implies is_word(#[trigger] rest[i]) by {
            assert(rest[i] == ws[i]);
        }
        lemma_word_splits(w, s);
        let t = w + s;
        if rest.len() == 0 {
            assert(spaced(ws) + s =~= t);
            assert(ws + tail =~= seq![w] + tail);
        } else {
            let u = seq![' '] + t;
            assert(u.skip(1) =~= t);
            assert(text::white_space(' '));
            assert(text::words(u) == text::words(t));
            lemma_spaced_splits(rest, seq![w] + tail, u);
            assert(spaced(ws) + s =~= spaced(rest) + u);
            assert(rest + (seq![w] + tail) =~= ws + tail);
        }
    }
}

/// A word: not empty, and without white space.
pub open spec fn is_word(w: Seq<char>) -> bool {
    w.len() > 0 && forall|i: int| 0 <= i < w.len() ==> !text::white_space(#[trigger] w[i])
}

proof fn lemma_word_splits(w: Seq<char>, s: Seq<char>)
    requires
        is_word(w),
        s.len() > 0 ==> text::white_space(s[0]),
    ensures
        text::words(w + s) == seq![w] + text::words(s),
{
    let t = w + s;
    text::lemma_word_len(t);
    let n = text::word_len(t) as int;
    if n < w.len() {
        assert(text::white_space(t[n]));
        assert(t[n] == w[n]);
    }
    if n > w.len() {
        assert(!text::white_space(t[w.len() as int]));
        assert(t[w.len() as int] == s[0]);
    }
    assert(!text::white_space(t[0])) by {
        assert(t[0] == w[0]);
    }
    assert(t.take(n) =~= w);
    assert(t.skip(n) =~= s);
}

/// Words that can be written with the tokens, with single spaces between them,
/// decode from their encoding to themselves.
pub proof fn law_text_round_trips(
    tokens: Seq<Seq<char>>,
    rules: Seq<Seq<char>>,
    ws: Seq<Seq<char>>,
)
    requires
        tokens.len() <= u32::MAX,
        merges_tokens(tokens, rules, rules.len()),
        tokens.contains(seq![' ']),
        forall|i: int| 0 <= i < ws.len() ==> is_writable(tokens, #[trigger] ws[i]),
    ensures
        ids_text(
            tokens,
            words_ids(vocabulary(tokens, rules, rules.len()), text::words(spaced(ws))),
        ) == spaced(ws),
{
    lemma_vocabulary_is_sound(tokens, rules, rules.len());
    let none = Seq::<char>::empty();
    assert forall|i: int| 0 <= i < ws.len() implies is_word(#[trigger] ws[i]) by {
        assert(is_writable(tokens, ws[i]));
    }
    lemma_spaced_splits(ws, Seq::empty(), none);
    assert(spaced(ws) + none =~= spaced(ws));
    assert(ws + Seq::<Seq<char>>::empty() =~= ws);
    lemma_words_keep_text(tokens, vocabulary(tokens, rules, rules.len()), ws);
}

proof fn lemma_space_at(a: Seq<char>, b: Seq<char>, from: int)
    requires
        0 <= from <= a.len(),
        forall|i: int| 0 <= i < a.len() ==> #[trigger] a[i] != ' ',
    ensures
        space_from(a + seq![' '] + b, from) == a.len(),
    decreases a.len() - from,
{
    let s = a + seq![' '] + b;
    if from < a.len() {
        assert(s[from] == a[from]);
        lemma_space_at(a, b, from + 1);
    } else {
        assert(s[from] == ' ');
    }
}

/// A rule of two known tokens merges their ids into that of both together, which
/// is a new one where there was none. Other merges and other ids stay, and a
/// rule with an unknown token changes nothing.
pub proof fn law_rules_merge_their_tokens(
    v: Vocabulary,
    a: Seq<char>,
    b: Seq<char>,
    fresh: u32,
    p: (u32, u32),
    t: Seq<char>,
)
    requires
        forall|i: int| 0 <= i < a.len() ==> #[trigger] a[i] != ' ',
    ensures
        ({
            let after = with_rule(v, a + seq![' '] + b, fresh);
            let known = v.ids.contains_key(a) && v.ids.contains_key(b);
            &&& !known ==> after == v
            &&& known ==> {
                let own = (v.ids[a], v.ids[b]);
                &&& after.merges.contains_key(own)
                &&& after.ids.contains_key(a + b)
                &&& after.merges[own] == after.ids[a + b]
                &&& after.ids[a + b] == if v.ids.contains_key(a + b) {
                    v.ids[a + b]
                } else {
                    fresh
                }
                &&& p != own ==> (after.merges.contains_key(p) <==> v.merges.contains_key(p))
                &&& p != own && v.merges.contains_key(p) ==> after.merges[p] == v.merges[p]
                &&& t != a + b ==> (after.ids.contains_key(t) <==> v.ids.contains_key(t))
                &&& t != a + b && v.ids.contains_key(t) ==> after.ids[t] == v.ids[t]
            }
        }),
{
    let rule = a + seq![' '] + b;
    lemma_space_at(a, b, 0);
    assert(rule.take(a.len() as int) =~= a);
    assert(rule.skip(a.len() as int + 1) =~= b);
}

/// The hexadecimal digit `d`, with capitals if asked for.
pub open spec fn spelled(d: int, capital: bool) -> char {
    if d < 10 {
        (48 + d) as char
    } else if capital {
        (55 + d) as char
    } else {
        (87 + d) as char
    }
}

/// A token that spells a byte in two hexadecimal digits, in capitals or small
/// letters, is decoded as the character of that number; one of another length is
/// decoded as it stands.
pub proof fn law_byte_tokens_are_decoded(b: u8, high: bool, low: bool, t: Seq<char>)
    ensures
        token_text(
            seq![
                '<',
                '0',
                'x',
                spelled(b as int / 16, high),
                spelled(b as int % 16, low),
                '>',
            ],
        ) == seq![b as char],
        t.len() != 6 ==> token_text(t) == t,
{
    let c = spelled(b as int / 16, high);
    let d = spelled(b as int % 16, low);
    assert(hex_value(c) == Some((b / 16) as u8));
    assert(hex_value(d) == Some((b % 16) as u8));
}

/// The ids of the first and the last token stand under their own keys, in 32
/// bits with or without a sign, or in the low half of 64; where there is none of
/// these, an id is zero. Tokens, rules and scores stand under theirs.
pub proof fn law_data_stands_under_its_keys(
    d: TokenizerData,
    m: Map<Seq<char>, MetaModel>,
    v: u32,
    i: int,
)
    requires
        d.describes(m),
    ensures
        ({
            let bos = "tokenizer.ggml.bos_token_id"@;
            let eos = "tokenizer.ggml.eos_token_id"@;
            let tokens = "tokenizer.ggml.tokens"@;
            let merges = "tokenizer.ggml.merges"@;
            let scores = "tokenizer.ggml.scores"@;
            let model = "tokenizer.ggml.model"@;
            &&& m.contains_key(bos) && m[bos] == MetaModel::Uint32(v) ==> d.bos_id == v
            &&& m.contains_key(eos) && m[eos] == MetaModel::Uint32(v) ==> d.eos_id == v
            &&& v <= 0x7fff_ffff && m.contains_key(bos) && m[bos] == MetaModel::Int32(v as i32)
                ==> d.bos_id == v
            &&& v <= 0x7fff_ffff && m.contains_key(eos) && m[eos] == MetaModel::Int32(v as i32)
                ==> d.eos_id == v
            &&& m.contains_key(bos) && m[bos] == MetaModel::Uint64(v as u64) ==> d.bos_id == v
            &&& m.contains_key(eos) && m[eos] == MetaModel::Uint64(v as u64) ==> d.eos_id == v
            &&& !m.contains_key(bos) ==> d.bos_id == 0
            &&& !m.contains_key(eos) ==> d.eos_id == 0
            &&& m.contains_key(tokens) && m[tokens] is Array
            &&& m[tokens]->Array_0.len() == d.tokens@.len()
            &&& 0 <= i < d.tokens@.len() ==> m[tokens]->Array_0[i] == MetaModel::Text(d.tokens@[i]@)
            &&& !m.contains_key(merges) ==> d.merges@.len() == 0
            &&& 0 <= i < d.merges@.len() ==> m[merges]->Array_0[i] == MetaModel::Text(d.merges@[i]@)
            &&& !m.contains_key(scores) ==> d.scores@.len() == 0
            &&& 0 <= i < d.scores@.len() ==> m[scores]->Array_0[i] == MetaModel::Float32(
                d.scores@[i],
            )
            &&& m.contains_key(model) && m[model] is Text ==> d.model_type@ == m[model]->Text_0
            &&& !m.contains_key(model) ==> d.model_type@ == "gpt2"@
        }),
{
    assert(v <= 0x7fff_ffff ==> (v as i32) as u32 == v) by (bit_vector);
    assert((v as u64) as u32 == v) by (bit_vector);
    let tokens = "tokenizer.ggml.tokens"@;
    let merges = "tokenizer.ggml.merges"@;
    let all = text::texts(d.tokens@);
    let rules = text::texts(d.merges@);
    assert(all.len() == d.tokens@.len());
    assert(rules.len() == d.merges@.len());
    if 0 <= i < all.len() {
        assert(all[i] == d.tokens@[i]@);
        assert(m[tokens]->Array_0[i] is Text);
    }
    if 0 <= i < rules.len() {
        assert(rules[i] == d.merges@[i]@);
        assert(m[merges]->Array_0[i] is Text);
    }
}

} // verus!
