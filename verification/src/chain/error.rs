//! What can go wrong in the chained engine.

use vstd::prelude::*;

use crate::text;

verus! {

#[derive(Debug)]
pub enum Error {
    Vulkan(String),
    Gguf(String),
    Api(String),
    Tokenizer(String),
    Architecture(String),
    OutOfMemory { needed: u64, available: u64 },
    KvCacheFull(usize, usize),
    Io(String),
}

impl Error {
    /// The message shown to the user.
    pub open spec fn text(&self) -> Seq<char> {
        match self {
            Error::Vulkan(s) => "Vulkan: "@ + s@,
            Error::Gguf(s) => "GGUF parse: "@ + s@,
            Error::Api(s) => "API: "@ + s@,
            Error::Tokenizer(s) => "Tokenizer: "@ + s@,
            Error::Architecture(s) => "Model architecture mismatch: "@ + s@,
            Error::OutOfMemory { needed, available } => "Out of memory: needed "@ + text::decimal(
                *needed as nat,
            ) + ", available "@ + text::decimal(*available as nat),
            Error::KvCacheFull(used, max) => "KV cache full: "@ + text::decimal(*used as nat)
                + " tokens, max "@ + text::decimal(*max as nat)
                + "; reduce max_tokens or restart with a shorter context"@,
            Error::Io(s) => "IO: "@ + s@,
        }
    }

    /// The message shown to the user.
    pub fn message(&self) -> (r: String)
        ensures
            r@ == self.text(),
    {
        let mut out: String = String::new();
        match self {
            Error::Vulkan(s) => {
                out.append("Vulkan: ");
                out.append(s.as_str());
            },
            Error::Gguf(s) => {
                out.append("GGUF parse: ");
                out.append(s.as_str());
            },
            Error::Api(s) => {
                out.append("API: ");
                out.append(s.as_str());
            },
            Error::Tokenizer(s) => {
                out.append("Tokenizer: ");
                out.append(s.as_str());
            },
            Error::Architecture(s) => {
                out.append("Model architecture mismatch: ");
                out.append(s.as_str());
            },
            Error::OutOfMemory { needed, available } => {
                out.append("Out of memory: needed ");
                text::push_decimal(&mut out, *needed);
                out.append(", available ");
                text::push_decimal(&mut out, *available);
            },
            Error::KvCacheFull(used, max) => {
                out.append("KV cache full: ");
                text::push_decimal(&mut out, *used as u64);
                out.append(" tokens, max ");
                text::push_decimal(&mut out, *max as u64);
                out.append("; reduce max_tokens or restart with a shorter context");
            },
            Error::Io(s) => {
                out.append("IO: ");
                out.append(s.as_str());
            },
        }
        proof {
            assert(out@ =~= self.text());
        }
        out
    }
}

} // verus!
