//! The tokens of one reply, until it ends.

use vstd::prelude::*;

verus! {

/// A reply in the making.
pub struct Generation {
    pub max_tokens: u32,
    pub eos_id: u32,
    /// The tokens so far.
    pub output: Vec<u32>,
    /// The end has been reached, or a token could not be generated.
    pub stopped: bool,
}

impl Generation {
    /// At most as many tokens as asked for, and the end of text only as the
    /// last one, behind which the reply has stopped.
    pub open spec fn well_formed(&self) -> bool {
        &&& self.output@.len() <= self.max_tokens
        &&& forall|i: int|
            0 <= i < self.output@.len() && #[trigger] self.output@[i] == self.eos_id ==> i + 1
                == self.output@.len() && self.stopped
    }

    /// One more token is wanted.
    pub open spec fn wants(&self) -> bool {
        !self.stopped && self.output@.len() < self.max_tokens
    }

    /// A reply without tokens yet.
    pub fn new(max_tokens: u32, eos_id: u32) -> (r: Self)
        ensures
            r.well_formed(),
            r.max_tokens == max_tokens,
            r.eos_id == eos_id,
            r.output@ == Seq::<u32>::empty(),
            !r.stopped,
    {
        Generation { max_tokens, eos_id, output: Vec::new(), stopped: false }
    }

    /// One more token is wanted.
    pub fn wants_token(&self) -> (r: bool)
        ensures
            r == self.wants(),
    {
        !self.stopped && self.output.len() < self.max_tokens as usize
    }

    /// Takes the next token, which may be the end.
    pub fn accept(&mut self, token: u32)
        requires
            old(self).well_formed(),
            old(self).wants(),
        ensures
            final(self).well_formed(),
            final(self).max_tokens == old(self).max_tokens,
            final(self).eos_id == old(self).eos_id,
            final(self).output@ == old(self).output@.push(token),
            final(self).stopped == (token == old(self).eos_id),
    {
        self.output.push(token);
        self.stopped = token == self.eos_id;
    }

    /// No token could be generated: the reply ends with those it has.
    pub fn fail(&mut self)
        requires
            old(self).well_formed(),
        ensures
            final(self).well_formed(),
            final(self).max_tokens == old(self).max_tokens,
            final(self).eos_id == old(self).eos_id,
            final(self).output@ == old(self).output@,
            final(self).stopped,
    {
        self.stopped = true;
    }
}

/// The reply to what the model gives, one token after the other and nothing
/// where it fails: all up to the first failure or the end of text, and no more
/// than `max`.
pub open spec fn reply(given: Seq<Option<u32>>, max: nat, eos: u32) -> Seq<u32>
    decreases max,
{
    if max == 0 || given.len() == 0 {
        Seq::empty()
    } else {
        match given[0] {
            None => Seq::empty(),
            Some(t) => if t == eos {
                seq![t]
            } else {
                seq![t] + reply(given.skip(1), (max - 1) as nat, eos)
            },
        }
    }
}

/// The reply to all that the model gives.
pub fn collect(given: &[Option<u32>], max_tokens: u32, eos_id: u32) -> (r: Vec<u32>)
    ensures
        r@ == reply(given@, max_tokens as nat, eos_id),
{
    let mut g: Generation = Generation::new(max_tokens, eos_id);
    let mut i: usize = 0;
    assert(given@.skip(0) =~= given@);
    while i < given.len() && g.wants_token()
        invariant
            i <= given@.len(),
            g.well_formed(),
            g.max_tokens == max_tokens,
            g.eos_id == eos_id,
            !g.stopped ==> g.output@.len() == i,
            reply(given@, max_tokens as nat, eos_id) == if g.stopped {
                g.output@
            } else {
                g.output@ + reply(given@.skip(i as int), (max_tokens - i) as nat, eos_id)
            },
        decreases given.len() - i,
    {
        let ghost before = g.output@;
        assert(given@.skip(i as int).skip(1) =~= given@.skip(i + 1));
        match given[i] {
            Some(t) => {
                g.accept(t);
                assert(g.output@ =~= before + seq![t]);
                assert(before + (seq![t] + reply(
                    given@.skip(i + 1),
                    (max_tokens - i - 1) as nat,
                    eos_id,
                )) =~= g.output@ + reply(given@.skip(i + 1), (max_tokens - i - 1) as nat, eos_id));
            },
            None => {
                g.fail();
                assert(before + Seq::<u32>::empty() =~= before);
            },
        }
        i = i + 1;
    }
    assert(g.output@ + Seq::<u32>::empty() =~= g.output@);
    g.output
}

/// The ids of a text with the id that starts a text in front.
pub fn with_bos(bos_id: u32, ids: &[u32]) -> (r: Vec<u32>)
    ensures
        r@ == seq![bos_id] + ids@,
{
    let mut out: Vec<u32> = vec![bos_id];
    let mut i: usize = 0;
    while i < ids.len()
        invariant
            i <= ids@.len(),
            out@ == seq![bos_id] + ids@.take(i as int),
        decreases ids.len() - i,
    {
        out.push(ids[i]);
        i = i + 1;
        assert(out@ =~= seq![bos_id] + ids@.take(i as int));
    }
    assert(ids@.take(i as int) =~= ids@);
    out
}

/// A reply is what the model gives from the first token on: it ends at the
/// limit, behind the first end of text, before the first failure, or with what
/// is given, and nowhere else.
pub proof fn law_reply_ends_where_it_must(given: Seq<Option<u32>>, max: nat, eos: u32)
    ensures
        ({
            let r = reply(given, max, eos);
            let n = r.len() as int;
            &&& n <= max
            &&& n <= given.len()
            &&& forall|i: int| 0 <= i < n ==> given[i] == Some(#[trigger] r[i])
            &&& forall|i: int| 0 <= i < n - 1 ==> #[trigger] r[i] != eos
            &&& n < max && n < given.len() ==> given[n] is None || (n > 0 && r[n - 1] == eos)
        }),
    decreases max,
{
    let r = reply(given, max, eos);
    if max > 0 && given.len() > 0 && given[0] is Some && given[0] != Some(eos) {
        let rest = given.skip(1);
        law_reply_ends_where_it_must(rest, (max - 1) as nat, eos);
        let q = reply(rest, (max - 1) as nat, eos);
        assert(r =~= seq![given[0]->0] + q);
        assert forall|i: int| 0 <= i < r.len() implies given[i] == Some(#[trigger] r[i]) by {
            if i > 0 {
                assert(r[i] == q[i - 1]);
                assert(rest[i - 1] == given[i]);
            }
        }
        assert forall|i: int| 0 <= i < r.len() - 1 implies #[trigger] r[i] != eos by {
            if i > 0 {
                assert(r[i] == q[i - 1]);
            }
        }
        let n = r.len() as int;
        if n < given.len() {
            assert(rest[n - 1] == given[n]);
        }
        if n > 1 {
            assert(r[n - 1] == q[n - 2]);
        }
    }
}

/// As long as a token is wanted, none was the end and there is room for one; a
/// reply that wants no more has stopped or is full.
pub proof fn law_tokens_are_wanted_to_the_end(g: Generation, i: int)
    requires
        g.well_formed(),
        0 <= i < g.output@.len(),
    ensures
        g.wants() ==> g.output@[i] != g.eos_id && g.output@.len() < g.max_tokens,
        !g.wants() && !g.stopped ==> g.output@.len() == g.max_tokens,
{
}

} // verus!
