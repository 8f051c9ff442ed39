//! Command-line arguments of the chained engine.

use vstd::prelude::*;

use crate::text;

verus! {

pub struct Args {
    pub model: Option<String>,
    pub port: u16,
    pub max_context: u32,
    pub smoke: bool,
    pub test_forward: bool,
}

/// What the arguments ask for.
pub struct ArgsModel {
    pub model: Option<Seq<char>>,
    pub port: u16,
    pub max_context: u32,
    pub smoke: bool,
    pub test_forward: bool,
}

impl View for Args {
    type V = ArgsModel;

    open spec fn view(&self) -> ArgsModel {
        ArgsModel {
            model: match self.model {
                Some(m) => Some(m@),
                None => None,
            },
            port: self.port,
            max_context: self.max_context,
            smoke: self.smoke,
            test_forward: self.test_forward,
        }
    }
}

pub const DEFAULT_PORT: u16 = 8787;

pub const DEFAULT_MAX_CONTEXT: u32 = 4096;

/// What no arguments ask for.
pub open spec fn defaults() -> ArgsModel {
    ArgsModel {
        model: None,
        port: DEFAULT_PORT,
        max_context: DEFAULT_MAX_CONTEXT,
        smoke: false,
        test_forward: false,
    }
}

impl Default for Args {
    fn default() -> (r: Self)
        ensures
            r@ == defaults(),
    {
        Args {
            model: None,
            port: DEFAULT_PORT,
            max_context: DEFAULT_MAX_CONTEXT,
            smoke: false,
            test_forward: false,
        }
    }
}

/// The option is followed by a value.
pub open spec fn takes_value(option: Seq<char>) -> bool {
    option == "--model"@ || option == "--port"@ || option == "--max-context"@
}

/// The number in `s`, or `default` when there is none up to `max`.
pub open spec fn number_or(s: Seq<char>, max: nat, default: nat) -> nat {
    match text::number_in(s, max) {
        Some(n) => n,
        None => default,
    }
}

/// `a` with one option set.
pub open spec fn with_option(a: ArgsModel, option: Seq<char>, value: Seq<char>) -> ArgsModel {
    if option == "--model"@ {
        ArgsModel { model: Some(value), ..a }
    } else if option == "--port"@ {
        ArgsModel {
            port: number_or(value, u16::MAX as nat, DEFAULT_PORT as nat) as u16,
            ..a
        }
    } else if option == "--max-context"@ {
        ArgsModel {
            max_context: number_or(value, u32::MAX as nat, DEFAULT_MAX_CONTEXT as nat) as u32,
            ..a
        }
    } else if option == "--smoke"@ {
        ArgsModel { smoke: true, ..a }
    } else if option == "--test-forward"@ {
        ArgsModel { test_forward: true, ..a }
    } else {
        a
    }
}

/// What the arguments from `i` on ask for, on top of `a`; nothing when the last
/// one lacks its value. Later options win, and unknown ones are passed over.
pub open spec fn parse_from(raw: Seq<Seq<char>>, i: int, a: ArgsModel) -> Option<ArgsModel>
    decreases raw.len() - i,
{
    if i >= raw.len() {
        Some(a)
    } else if !takes_value(raw[i]) {
        parse_from(raw, i + 1, with_option(a, raw[i], Seq::empty()))
    } else if i + 1 >= raw.len() {
        None
    } else {
        parse_from(raw, i + 2, with_option(a, raw[i], raw[i + 1]))
    }
}

/// The texts of the arguments.
pub open spec fn texts(raw: Seq<String>) -> Seq<Seq<char>> {
    raw.map_values(|s: String| s@)
}

/// Reads the arguments behind the program's name. There is no result when an
/// option that takes a value comes last.
pub fn parse_args(raw: &[String]) -> (r: Option<Args>)
    ensures
        match (r, parse_from(texts(raw@), 1, defaults())) {
            (Some(a), Some(m)) => a@ == m,
            (None, None) => true,
            _ => false,
        },
{
    let mut args: Args = Args::default();
    let mut i: usize = 1;
    assert(raw.len() == raw@.len());
    while i < raw.len()
        invariant
            1 <= i,
            raw@.len() <= usize::MAX,
            parse_from(texts(raw@), 1, defaults()) == parse_from(texts(raw@), i as int, args@),
        decreases raw.len() - i,
    {
        let option: &str = raw[i].as_str();
        assert(texts(raw@)[i as int] == option@);
        let is_model: bool = text::same_text(option, "--model");
        let is_port: bool = text::same_text(option, "--port");
        let is_context: bool = text::same_text(option, "--max-context");
        if is_model || is_port || is_context {
            if i + 1 >= raw.len() {
                return None;
            }
            let value: &String = &raw[i + 1];
            assert(texts(raw@)[i + 1] == value@);
            if is_model {
                args.model = Some(value.clone());
            } else if is_port {
                args.port =
                match text::parse_number(
                    text::to_chars(value.as_str()).as_slice(),
                    u16::MAX as u64,
                ) {
                    Some(n) => n as u16,
                    None => DEFAULT_PORT,
                };
            } else {
                args.max_context =
                match text::parse_number(
                    text::to_chars(value.as_str()).as_slice(),
                    u32::MAX as u64,
                ) {
                    Some(n) => n as u32,
                    None => DEFAULT_MAX_CONTEXT,
                };
            }
            i = i + 2;
        } else {
            if text::same_text(option, "--smoke") {
                args.smoke = true;
            } else if text::same_text(option, "--test-forward") {
                args.test_forward = true;
            }
            i = i + 1;
        }
    }
    Some(args)
}

/// Bytes of device memory for a model: one GiB for compute, and the cache.
pub open spec fn arena_bytes(c: crate::chain::gguf::ModelConfig, max_context: u32) -> int {
    0x4000_0000 + c.n_layers * max_context * (c.n_heads_kv * (c.head_dim / 32 * 18 + c.head_dim))
}

/// Bytes of device memory for a model.
pub fn arena_size(c: &crate::chain::gguf::ModelConfig, max_context: u32) -> (r: u64)
    requires
        c.n_heads_kv * (c.head_dim / 32 * 18 + c.head_dim) <= u64::MAX,
        arena_bytes(*c, max_context) <= u64::MAX,
    ensures
        r == arena_bytes(*c, max_context),
{
    let per_token: u64 = c.n_heads_kv as u64 * (c.head_dim as u64 / 32 * 18 + c.head_dim as u64);
    assert(0 <= c.n_layers * max_context <= u64::MAX) by (nonlinear_arith)
        requires
            c.n_layers <= u32::MAX,
            max_context <= u32::MAX,
    ;
    let positions: u64 = c.n_layers as u64 * max_context as u64;
    let kv: u64 = positions * per_token;
    0x4000_0000 + kv
}

/// The memory for a model holds its cache beside one GiB.
pub proof fn law_arena_holds_cache(c: crate::chain::gguf::ModelConfig, max_context: u32)
    ensures
        arena_bytes(c, max_context) == 0x4000_0000 + crate::chain::kv_cache::k_size(c, max_context)
            + crate::chain::kv_cache::v_size(c, max_context),
{
    let l = c.n_layers as int;
    let h = c.n_heads_kv as int;
    let m = max_context as int;
    let k = crate::chain::kv_cache::k_bytes(c.head_dim);
    let v = c.head_dim as int;
    assert(l * m * (h * (k + v)) == (l * h * m) * k + (l * h * m) * v) by (nonlinear_arith);
}

} // verus!
