//! The generation of a reply: its tokens, and what ends it.

use vstd::prelude::*;

use crate::text;

verus! {

/// A generated token, with its text where it can be decoded.
pub struct Output {
    pub token: u32,
    pub text: Option<String>,
}

/// The text of a token, empty where it cannot be decoded.
pub open spec fn text_of(o: Output) -> Seq<char> {
    match o.text {
        Some(t) => t@,
        None => Seq::empty(),
    }
}

/// The texts of all tokens, one after the other.
pub open spec fn joined(outputs: Seq<Output>) -> Seq<char>
    decreases outputs.len(),
{
    if outputs.len() == 0 {
        Seq::empty()
    } else {
        joined(outputs.drop_last()) + text_of(outputs.last())
    }
}

/// What ends a reply.
pub struct StopRules {
    /// The token that ends a turn.
    pub eos: u32,
    /// The most tokens that the request asks for.
    pub max_tokens: u32,
    /// Positions that are left in the context behind the prompt.
    pub room: u32,
    /// Texts that end a reply.
    pub stop_sequences: Vec<String>,
}

/// The text at `k` ends a reply with this text. An empty one never does.
pub open spec fn ends_at(stops: Seq<String>, text: Seq<char>, k: int) -> bool {
    stops[k]@.len() > 0 && text::occurs_in(text, stops[k]@)
}

/// The place of the first of the texts that ends a reply with this text, or
/// their number where none does.
pub open spec fn first_stop(stops: Seq<String>, text: Seq<char>, from: int) -> int
    decreases stops.len() - from,
{
    if from >= stops.len() {
        stops.len() as int
    } else if ends_at(stops, text, from) {
        from
    } else {
        first_stop(stops, text, from + 1)
    }
}

impl StopRules {
    /// The request asks for more tokens than the context holds: one for each
    /// position that is left, and the last one, which takes no position.
    pub open spec fn clamps(&self) -> bool {
        self.max_tokens > self.room + 1
    }

    /// The most tokens of the reply: those that the request asks for, as far as
    /// the context holds them.
    pub open spec fn limit(&self) -> int {
        if self.clamps() {
            self.room + 1
        } else {
            self.max_tokens as int
        }
    }

    /// A stop sequence stands in the text.
    pub open spec fn stops(&self, text: Seq<char>) -> bool {
        first_stop(self.stop_sequences@, text, 0) < self.stop_sequences@.len()
    }

    /// The most tokens of the reply.
    pub fn most_tokens(&self) -> (r: u32)
        ensures
            r == self.limit(),
    {
        if self.max_tokens as u64 > self.room as u64 + 1 {
            self.room + 1
        } else {
            self.max_tokens
        }
    }

    fn find_stop(&self, text: &[char]) -> (r: usize)
        ensures
            r == first_stop(self.stop_sequences@, text@, 0),
            r <= self.stop_sequences@.len(),
    {
        let mut i: usize = 0;
        while i < self.stop_sequences.len()
            invariant
                i <= self.stop_sequences@.len(),
                first_stop(self.stop_sequences@, text@, 0) == first_stop(
                    self.stop_sequences@,
                    text@,
                    i as int,
                ),
            decreases self.stop_sequences.len() - i,
        {
            let stop: &String = &self.stop_sequences[i];
            proof {
                reveal_strlit("");
                assert(stop@.len() == 0 <==> stop@ =~= ""@);
            }
            if !text::same_text(stop.as_str(), "") && text::contains_text(text, stop.as_str()) {
                return i;
            }
            i = i + 1;
        }
        i
    }
}

/// How a reply ended.
pub struct Ending {
    pub stop_reason: &'static str,
    /// The stop sequence that ended it.
    pub stop_sequence: Option<String>,
    pub output_tokens: u64,
    /// The most tokens that the context allowed, where the request asked for more.
    pub clamped_to: Option<u32>,
}

/// A generation under way: the tokens so far, and what ends it.
pub struct Generation {
    outputs: Vec<Output>,
    text: Vec<char>,
    stop: usize,
    failed: bool,
    rules: StopRules,
}

impl Generation {
    pub closed spec fn outputs(&self) -> Seq<Output> {
        self.outputs@
    }

    pub closed spec fn rules(&self) -> StopRules {
        self.rules
    }

    pub closed spec fn failed(&self) -> bool {
        self.failed
    }

    /// The tokens so far.
    pub open spec fn tokens(&self) -> Seq<u32> {
        Seq::new(self.outputs().len(), |i: int| self.outputs()[i].token)
    }

    /// The last token ends the turn.
    pub open spec fn turn_ended(&self) -> bool {
        self.tokens().last() == self.rules().eos
    }

    /// A stop sequence stands in the text.
    pub open spec fn stopped(&self) -> bool {
        self.rules().stops(joined(self.outputs()))
    }

    /// Generation goes on: no decode failed, the last token does not end the
    /// turn, no stop sequence stands in the text, and there are fewer tokens
    /// than the reply may have.
    pub open spec fn goes_on(&self) -> bool {
        &&& !self.failed()
        &&& !self.turn_ended()
        &&& !self.stopped()
        &&& self.tokens().len() < self.rules().limit()
    }

    /// The text and the stop sequence that are kept belong to the tokens.
    pub closed spec fn consistent(&self) -> bool {
        &&& self.text@ == joined(self.outputs@)
        &&& self.stop == first_stop(self.rules.stop_sequences@, self.text@, 0)
    }

    /// At least one token, at most as many as the reply may have, and what ends
    /// a reply nowhere but at the last token.
    pub open spec fn well_formed(&self) -> bool {
        &&& self.consistent()
        &&& 1 <= self.tokens().len()
        &&& self.tokens().len() == 1 || self.tokens().len() <= self.rules().limit()
        &&& forall|i: int|
            0 <= i < self.tokens().len() - 1 ==> #[trigger] self.tokens()[i] != self.rules().eos
        &&& self.outputs().len() > 1 ==> !self.rules().stops(joined(self.outputs().drop_last()))
    }

    /// A generation that begins with the token of the prefill.
    pub fn begin(first: Output, rules: StopRules) -> (r: Self)
        ensures
            r.well_formed(),
            r.outputs() == seq![first],
            r.rules() == rules,
            !r.failed(),
    {
        let text: Vec<char> = match &first.text {
            Some(t) => text::to_chars(t.as_str()),
            None => Vec::new(),
        };
        let stop: usize = rules.find_stop(text.as_slice());
        let ghost all = seq![first];
        let outputs: Vec<Output> = vec![first];
        proof {
            assert(outputs@ =~= all);
            assert(all.drop_last() =~= Seq::<Output>::empty());
            assert(joined(all.drop_last()) =~= Seq::<char>::empty());
            assert(joined(all) =~= text@);
        }
        Generation { outputs, text, stop, failed: false, rules }
    }

    /// The token to decode next, while generation goes on.
    pub fn next(&self) -> (r: Option<u32>)
        requires
            self.well_formed(),
        ensures
            r == if self.goes_on() {
                Some(self.tokens().last())
            } else {
                None
            },
    {
        let n: usize = self.outputs.len();
        assert(n == self.tokens().len());
        let last: u32 = self.outputs[n - 1].token;
        if self.failed || last == self.rules.eos || self.stop < self.rules.stop_sequences.len()
            || n as u64 >= self.rules.most_tokens() as u64 {
            None
        } else {
            Some(last)
        }
    }

    /// Takes the token that was decoded, or notes that decoding failed.
    pub fn step(&mut self, decoded: Option<Output>)
        requires
            old(self).well_formed(),
            old(self).goes_on(),
        ensures
            final(self).well_formed(),
            final(self).rules() == old(self).rules(),
            match decoded {
                Some(o) => {
                    &&& final(self).outputs() == old(self).outputs().push(o)
                    &&& !final(self).failed()
                },
                None => {
                    &&& final(self).outputs() == old(self).outputs()
                    &&& final(self).failed()
                },
            },
    {
        match decoded {
            Some(o) => {
                let ghost before = self.outputs@;
                match &o.text {
                    Some(t) => {
                        let mut more: Vec<char> = text::to_chars(t.as_str());
                        self.text.append(&mut more);
                    },
                    None => {},
                }
                self.stop = self.rules.find_stop(self.text.as_slice());
                self.outputs.push(o);
                proof {
                    assert(self.outputs@.drop_last() =~= before);
                    assert(self.text@ =~= joined(self.outputs@));
                    assert forall|i: int| 0 <= i < self.tokens().len() - 1 implies
                        #[trigger] self.tokens()[i] != self.rules().eos by {
                        assert(old(self).tokens()[i] != self.rules().eos);
                    }
                }
            },
            None => {
                self.failed = true;
                assert(self.tokens() =~= old(self).tokens());
            },
        }
    }

    /// Why a reply ends: the turn ended, in a tool call if there is one, a stop
    /// sequence came, or the reply has all its tokens. One whose decoding failed
    /// ends its turn.
    pub open spec fn reason(&self, called: bool) -> Seq<char> {
        if self.turn_ended() {
            if called {
                "tool_use"@
            } else {
                "end_turn"@
            }
        } else if self.stopped() {
            "stop_sequence"@
        } else if self.failed() {
            "end_turn"@
        } else {
            "max_tokens"@
        }
    }

    /// Why a reply ends; `called` says whether it holds a tool call.
    pub fn stop_reason(&self, called: bool) -> (r: &'static str)
        requires
            self.well_formed(),
            !self.goes_on(),
        ensures
            r@ == self.reason(called),
    {
        let n: usize = self.outputs.len();
        assert(n == self.tokens().len());
        if self.outputs[n - 1].token == self.rules.eos {
            if called {
                "tool_use"
            } else {
                "end_turn"
            }
        } else if self.stop < self.rules.stop_sequences.len() {
            "stop_sequence"
        } else if self.failed {
            "end_turn"
        } else {
            "max_tokens"
        }
    }

    /// `e` says how this reply ended.
    pub open spec fn is_ending(&self, called: bool, e: Ending) -> bool {
        &&& e.stop_reason@ == self.reason(called)
        &&& match e.stop_sequence {
            Some(s) => {
                &&& !self.turn_ended()
                &&& self.stopped()
                &&& s@ == self.rules().stop_sequences@[first_stop(
                    self.rules().stop_sequences@,
                    joined(self.outputs()),
                    0,
                )]@
            },
            None => self.turn_ended() || !self.stopped(),
        }
        &&& e.output_tokens == self.tokens().len()
        &&& match e.clamped_to {
            Some(n) => self.rules().clamps() && n == self.rules().limit(),
            None => !self.rules().clamps(),
        }
    }

    /// How this reply ended; `called` says whether it holds a tool call.
    pub fn ending(&self, called: bool) -> (r: Ending)
        requires
            self.well_formed(),
            !self.goes_on(),
        ensures
            self.is_ending(called, r),
    {
        let n: usize = self.outputs.len();
        assert(n == self.tokens().len());
        let stop_sequence: Option<String> = if self.outputs[n - 1].token != self.rules.eos
            && self.stop < self.rules.stop_sequences.len() {
            Some(self.rules.stop_sequences[self.stop].as_str().to_owned())
        } else {
            None
        };
        let most: u32 = self.rules.most_tokens();
        Ending {
            stop_reason: self.stop_reason(called),
            stop_sequence,
            output_tokens: n as u64,
            clamped_to: if most < self.rules.max_tokens {
                Some(most)
            } else {
                None
            },
        }
    }

    /// The tokens that were generated, with their texts.
    pub fn outputs_so_far(&self) -> (r: &[Output])
        ensures
            r@ == self.outputs(),
    {
        self.outputs.as_slice()
    }
}

/// A reply without an end of turn, a stop sequence or a failure has as many
/// tokens as the request asks for, and ends for that reason, where the context
/// holds them all.
pub proof fn law_ends_at_max_tokens(g: Generation, called: bool)
    requires
        g.well_formed(),
        !g.goes_on(),
        !g.failed(),
        !g.turn_ended(),
        !g.stopped(),
        g.rules().max_tokens >= 1,
        !g.rules().clamps(),
    ensures
        g.tokens().len() == g.rules().max_tokens,
        g.reason(called) == "max_tokens"@,
{
}

/// No reply has more tokens than the request asks for, nor more than the
/// context holds, but for the one token that follows the prompt.
pub proof fn law_reply_is_bounded(g: Generation)
    requires
        g.well_formed(),
    ensures
        g.tokens().len() <= 1 || g.tokens().len() <= g.rules().max_tokens,
        g.tokens().len() <= g.rules().room + 1,
{
}

} // verus!
