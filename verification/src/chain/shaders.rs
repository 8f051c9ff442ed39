//! The compute shaders of the chained engine.

use vstd::prelude::*;

use crate::text;

verus! {

/// All shaders, by name: one pipeline and one descriptor set each.
pub open spec fn shader_list() -> Seq<Seq<char>> {
    seq![
        "rms_norm"@,
        "embed"@,
        "qkv"@,
        "rope"@,
        "attention"@,
        "kv_write"@,
        "residual_add"@,
        "router_topk"@,
        "moe_gate_up"@,
        "silu_mult"@,
        "moe_down"@,
        "moe_combine"@,
        "lm_head"@,
        "sample"@,
        "mtp_concat_norm"@,
        "mtp_attention"@,
        "mtp_ffn"@,
        "mtp_head"@,
        "ssm_norm"@,
        "ssm_conv"@,
        "ssm_scan"@,
        "ssm_proj"@,
        "ssm_out"@,
    ]
}

/// All shaders, by name.
pub fn shader_names() -> (r: Vec<&'static str>)
    ensures
        r@.len() == shader_list().len(),
        forall|i: int| 0 <= i < r@.len() ==> (#[trigger] r@[i])@ == shader_list()[i],
{
    vec![
        "rms_norm",
        "embed",
        "qkv",
        "rope",
        "attention",
        "kv_write",
        "residual_add",
        "router_topk",
        "moe_gate_up",
        "silu_mult",
        "moe_down",
        "moe_combine",
        "lm_head",
        "sample",
        "mtp_concat_norm",
        "mtp_attention",
        "mtp_ffn",
        "mtp_head",
        "ssm_norm",
        "ssm_conv",
        "ssm_scan",
        "ssm_proj",
        "ssm_out",
    ]
}

/// The first place of `name` among the shaders.
pub fn shader_index(name: &str) -> (r: Option<usize>)
    ensures
        match r {
            Some(i) => {
                &&& i < shader_list().len()
                &&& shader_list()[i as int] == name@
                &&& forall|j: int| 0 <= j < i ==> #[trigger] shader_list()[j] != name@
            },
            None => !shader_list().contains(name@),
        },
{
    let names: Vec<&'static str> = shader_names();
    let mut i: usize = 0;
    while i < names.len()
        invariant
            i <= names.len(),
            names@.len() == shader_list().len(),
            forall|j: int| 0 <= j < names@.len() ==> (#[trigger] names@[j])@ == shader_list()[j],
            forall|j: int| 0 <= j < i ==> #[trigger] shader_list()[j] != name@,
        decreases names.len() - i,
    {
        assert(names@[i as int]@ == shader_list()[i as int]);
        if text::same_text(names[i], name) {
            return Some(i);
        }
        i = i + 1;
    }
    None
}

/// SPIR-V words of a shader file, or `None` when its length is no multiple of four.
pub fn spirv_words(bytes: &[u8]) -> (r: Option<Vec<u32>>)
    ensures
        match r {
            Some(words) => {
                &&& bytes@.len() % 4 == 0
                &&& words@ == crate::bytes::words_le(bytes@)
            },
            None => bytes@.len() % 4 != 0,
        },
{
    if bytes.len() % 4 != 0 {
        return None;
    }
    Some(crate::bytes::read_words(bytes))
}

} // verus!
