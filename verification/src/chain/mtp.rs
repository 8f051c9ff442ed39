//! Multi-token prediction: drafts by light heads, verified by the full model.

use vstd::prelude::*;

use crate::chain::constants::{MTPBlockPC, SamplePC};
use crate::chain::dispatch;
use crate::chain::dispatch::{BarrierKind, DispatchChain, DispatchStep, StepPlan};
use crate::chain::engine;
use crate::chain::engine::Engine;
use crate::chain::error::Error;
use crate::chain::gguf::ModelConfig;
use crate::chain::shaders;

verus! {

/// Multi-token prediction (MTP) speculative decoder.
///
/// After the main model generates a token, the runner drafts several future
/// tokens with light transformer heads, and verifies them with one batched
/// forward pass through the full model.
pub struct MtpRunner {
    pub n_modules: u32,
    pub depth: u32,
}

/// Push constants of one MTP block.
pub open spec fn block_words(c: ModelConfig, pos: u32, block: u32) -> Seq<u32> {
    seq![c.hidden_dim, c.head_dim, c.n_heads_q, c.n_heads_kv, pos, block]
}

/// The dispatches that draft the token of round `d`: concatenation and norm,
/// attention, feed-forward, and the head that samples.
pub open spec fn draft_plan(c: ModelConfig, position: u32, d: u32) -> Seq<StepPlan> {
    let tiles = engine::div_ceil(c.hidden_dim as int, 256);
    let pos = (position + d + 1) as u32;
    seq![
        engine::step(
            "mtp_concat_norm"@,
            block_words(c, pos, d),
            tiles,
            1,
            BarrierKind::ExecOnly,
        ),
        engine::step(
            "mtp_attention"@,
            block_words(c, pos, d),
            c.n_heads_q as int,
            1,
            BarrierKind::ExecOnly,
        ),
        engine::step("mtp_ffn"@, block_words(c, 0, d), tiles, 1, BarrierKind::ExecOnly),
        engine::step(
            "mtp_head"@,
            seq![c.vocab_size, engine::ONE_BITS, engine::ONE_BITS, 0],
            1,
            1,
            BarrierKind::HostRead,
        ),
    ]
}

impl MtpRunner {
    pub fn new(n_modules: u32, depth: u32) -> (r: Self)
        ensures
            r.n_modules == n_modules,
            r.depth == depth,
    {
        MtpRunner { n_modules, depth }
    }

    /// Number of draft rounds: one per module, at most `depth`.
    pub open spec fn round_count(&self) -> u32 {
        if self.depth < self.n_modules {
            self.depth
        } else {
            self.n_modules
        }
    }

    /// Number of draft rounds.
    pub fn rounds(&self) -> (r: u32)
        ensures
            r == self.round_count(),
    {
        if self.depth < self.n_modules {
            self.depth
        } else {
            self.n_modules
        }
    }

    /// Begins the draft chain behind `first_token`, the token that the main
    /// model has decoded.
    pub fn draft(&self, first_token: u32) -> (r: DraftRun)
        ensures
            r.tokens() == seq![first_token],
            r.round() == 0,
            r.rounds() == self.round_count(),
            r.well_formed(),
    {
        DraftRun { drafts: vec![first_token], rounds: self.rounds() }
    }

    /// Settles which drafts are accepted, given the full model's prediction at
    /// each position, and advances the cache past them.
    ///
    /// Returns the number of accepted tokens: at least one when there are
    /// drafts, since the main model's own token is always accepted.
    pub fn verify(&self, engine: &mut Engine, drafts: &[u32], predictions: &[u32]) -> (r: Result<
        u32,
        Error,
    >)
        requires
            drafts@.len() <= u32::MAX,
        ensures
            final(engine).config == old(engine).config,
            final(engine).buffers == old(engine).buffers,
            engine::advanced(
                old(engine).kv_cache,
                final(engine).kv_cache,
                engine::accepted_count(drafts@, predictions@) as u32,
                r is Ok,
            ),
            match r {
                Ok(n) => n == engine::accepted_count(drafts@, predictions@),
                Err(e) => engine::is_full(e, final(engine).kv_cache),
            },
    {
        let accepted: u32 = engine::count_accepted(drafts, predictions) as u32;
        match engine.kv_cache.advance_by(accepted) {
            Ok(_) => Ok(accepted),
            Err(e) => Err(e),
        }
    }
}

/// A draft chain under way: the tokens so far, and the rounds in all.
pub struct DraftRun {
    drafts: Vec<u32>,
    rounds: u32,
}

impl DraftRun {
    /// The main model's token and the drafts so far.
    pub closed spec fn tokens(&self) -> Seq<u32> {
        self.drafts@
    }

    pub closed spec fn rounds(&self) -> u32 {
        self.rounds
    }

    /// Rounds done.
    pub open spec fn round(&self) -> int {
        self.tokens().len() - 1
    }

    pub open spec fn well_formed(&self) -> bool {
        0 <= self.round() <= self.rounds()
    }

    /// The dispatches of the next round; none when all rounds are done.
    pub fn next_chain(&self, engine: &Engine) -> (r: Option<DispatchChain>)
        requires
            self.well_formed(),
            engine::dims_fit(engine.config),
            engine.kv_cache.seq_len + self.rounds() <= u32::MAX,
        ensures
            match r {
                None => self.round() == self.rounds(),
                Some(chain) => {
                    &&& self.round() < self.rounds()
                    &&& dispatch::continues(
                        Seq::empty(),
                        chain@,
                        draft_plan(engine.config, engine.kv_cache.seq_len, self.round() as u32),
                    )
                },
            },
    {
        let d: u32 = (self.drafts.len() - 1) as u32;
        if d >= self.rounds {
            return None;
        }
        let c: &ModelConfig = &engine.config;
        let mut chain: DispatchChain = DispatchChain::new();
        assert(dispatch::continues(Seq::<DispatchStep>::empty(), chain@, Seq::empty()));
        let block: MTPBlockPC = MTPBlockPC {
            dim: c.hidden_dim,
            head_dim: c.head_dim,
            n_heads: c.n_heads_q,
            n_kv_heads: c.n_heads_kv,
            pos: engine.kv_cache.position() + d + 1,
            block_idx: d,
        };
        let ffn: MTPBlockPC = MTPBlockPC {
            dim: c.hidden_dim,
            head_dim: c.head_dim,
            n_heads: c.n_heads_q,
            n_kv_heads: c.n_heads_kv,
            pos: 0,
            block_idx: d,
        };
        let head: SamplePC = SamplePC {
            vocab_size: c.vocab_size,
            temperature_bits: engine::ONE_BITS,
            top_p_bits: engine::ONE_BITS,
            top_k: 0,
        };
        let tiles: u32 = engine::div_up(c.hidden_dim, 256);
        engine::add_step(&mut chain, "mtp_concat_norm", &block, tiles, 1, BarrierKind::ExecOnly);
        // Attends to the main model's keys and values.
        engine::add_step(
            &mut chain,
            "mtp_attention",
            &block,
            c.n_heads_q,
            1,
            BarrierKind::ExecOnly,
        );
        engine::add_step(&mut chain, "mtp_ffn", &ffn, tiles, 1, BarrierKind::ExecOnly);
        engine::add_step(&mut chain, "mtp_head", &head, 1, 1, BarrierKind::HostRead);
        proof {
            let all = draft_plan(engine.config, engine.kv_cache.seq_len, d);
            assert(Seq::<StepPlan>::empty().push(all[0]).push(all[1]).push(all[2]).push(all[3])
                =~= all);
        }
        Some(chain)
    }

    /// Takes the token that the round sampled.
    pub fn push(&mut self, token: u32)
        requires
            old(self).well_formed(),
            old(self).round() < old(self).rounds(),
        ensures
            final(self).tokens() == old(self).tokens().push(token),
            final(self).rounds() == old(self).rounds(),
            final(self).well_formed(),
    {
        self.drafts.push(token);
    }

    /// The main model's token, then one draft per round done.
    pub fn into_drafts(self) -> (r: Vec<u32>)
        ensures
            r@ == self.tokens(),
    {
        self.drafts
    }
}

/// Every dispatch of a draft round runs a known shader, and only the last one
/// hands memory to the host.
pub proof fn law_draft_round(c: ModelConfig, position: u32, d: u32)
    ensures
        engine::runs_shaders(draft_plan(c, position, d)),
        forall|i: int|
            0 <= i < 4 ==> (#[trigger] draft_plan(c, position, d)[i]).barrier == if i == 3 {
                BarrierKind::HostRead
            } else {
                BarrierKind::ExecOnly
            },
{
    let all = shaders::shader_list();
    assert(all[14] == "mtp_concat_norm"@ && all[15] == "mtp_attention"@ && all[16] == "mtp_ffn"@
        && all[17] == "mtp_head"@);
}

} // verus!
