//! What the steps of a forward pass come to: where each layer stands, which
//! buffers it reads and which tokens are embedded where.

use crate::inference::InferenceState;
use crate::schedule;
use crate::schedule::{Action, Step};
use vstd::prelude::*;

verus! {

/// How many of the first `n` layers give way, in a pass over `m` tokens.
pub open spec fn rests(n: int, m: u32, relief: bool) -> int {
    if relief && m > 128 {
        n / 8
    } else {
        0
    }
}

/// At `i` layer `k` runs over `m` tokens, and behind it its experts. Both read
/// the buffer `ping` says, and leave the other one to be read; nothing else of
/// the state changes. Between them the bus is yielded where `rest` says so.
pub open spec fn runs_layer(
    steps: Seq<Step>,
    i: int,
    k: int,
    m: u32,
    position: u32,
    seq_len: u32,
    ping: bool,
    rest: bool,
) -> bool {
    let now = InferenceState { position, seq_len, hidden_ping: ping };
    let next = InferenceState { position, seq_len, hidden_ping: !ping };
    let j = if rest {
        i + 2
    } else {
        i + 1
    };
    &&& 0 <= i < j < steps.len()
    &&& steps[i].action == Action::Layer {
        layer: k as u32,
        is_gqa: k % 4 == 3,
        m,
        state: now,
    }
    &&& steps[i].after == now
    &&& rest ==> steps[i + 1].action is Yield && steps[i + 1].after == now
    &&& steps[j].action == Action::Experts { layer: k as u32, m, ping }
    &&& steps[j].after == next
}

proof fn lemma_pass_len(n: nat, m: u32, s: InferenceState, relief: bool)
    ensures
        schedule::pass_steps(n, m, s, relief).len() == 2 * n + rests(n as int, m, relief),
    decreases n,
{
    if n > 0 {
        lemma_pass_len((n - 1) as nat, m, s, relief);
    }
}

/// Every layer of a pass runs in its turn: full attention in every fourth,
/// buffers that change their roles with every layer, and in a long prefill a
/// yield in every eighth layer.
pub proof fn law_layers_run_in_turn(n: nat, m: u32, s: InferenceState, relief: bool, k: int)
    requires
        0 <= k < n,
    ensures
        schedule::pass_steps(n, m, s, relief).len() == 2 * n + rests(n as int, m, relief),
        runs_layer(
            schedule::pass_steps(n, m, s, relief),
            2 * k + rests(k, m, relief),
            k,
            m,
            s.position,
            s.seq_len,
            if k % 2 == 0 {
                s.hidden_ping
            } else {
                !s.hidden_ping
            },
            relief && m > 128 && (k + 1) % 8 == 0,
        ),
    decreases n,
{
    lemma_pass_len(n, m, s, relief);
    lemma_pass_len((n - 1) as nat, m, s, relief);
    if k < n - 1 {
        law_layers_run_in_turn((n - 1) as nat, m, s, relief, k);
    }
}

/// The tokens that steps embed, each with its place, in order.
pub open spec fn embedded(steps: Seq<Step>) -> Seq<(u32, u32)>
    decreases steps.len(),
{
    if steps.len() == 0 {
        Seq::empty()
    } else {
        match steps.last().action {
            Action::Embed { token, pos } => embedded(steps.drop_last()).push((token, pos)),
            _ => embedded(steps.drop_last()),
        }
    }
}

/// The tokens from `from` on, each at its own place in the conversation.
pub open spec fn in_place(tokens: Seq<u32>, from: int) -> Seq<(u32, u32)> {
    Seq::new((tokens.len() - from) as nat, |i: int| (tokens[from + i], (from + i) as u32))
}

proof fn lemma_embedded_join(a: Seq<Step>, b: Seq<Step>)
    ensures
        embedded(a + b) == embedded(a) + embedded(b),
    decreases b.len(),
{
    if b.len() == 0 {
        assert(a + b =~= a);
        assert(embedded(a) + embedded(b) =~= embedded(a));
    } else {
        lemma_embedded_join(a, b.drop_last());
        assert((a + b).drop_last() =~= a + b.drop_last());
        assert(embedded(a + b) =~= embedded(a) + embedded(b));
    }
}

proof fn lemma_none_embedded(steps: Seq<Step>)
    requires
        forall|i: int| 0 <= i < steps.len() ==> !((#[trigger] steps[i]).action is Embed),
    ensures
        embedded(steps) == Seq::<(u32, u32)>::empty(),
    decreases steps.len(),
{
    if steps.len() > 0 {
        let some = steps.drop_last();
        assert forall|i: int| 0 <= i < some.len() implies !((#[trigger] some[i]).action is Embed) by {
            assert(some[i] == steps[i]);
        }
        lemma_none_embedded(some);
        assert(!(steps[steps.len() - 1].action is Embed));
    }
}

proof fn lemma_pass_embeds_none(n: nat, m: u32, s: InferenceState, relief: bool)
    ensures
        forall|i: int|
            0 <= i < schedule::pass_steps(n, m, s, relief).len() ==> !((
            #[trigger] schedule::pass_steps(n, m, s, relief)[i]).action is Embed),
        embedded(schedule::pass_steps(n, m, s, relief)) == Seq::<(u32, u32)>::empty(),
    decreases n,
{
    if n > 0 {
        lemma_pass_embeds_none((n - 1) as nat, m, s, relief);
        let before = schedule::pass_steps((n - 1) as nat, m, s, relief);
        let layer = schedule::layer_steps(n - 1, m, s, relief);
        let all = schedule::pass_steps(n, m, s, relief);
        assert forall|i: int| 0 <= i < all.len() implies !((#[trigger] all[i]).action is Embed) by {
            if i < before.len() {
                assert(all[i] == before[i]);
            } else {
                assert(all[i] == layer[i - before.len()]);
            }
        }
    }
    lemma_none_embedded(schedule::pass_steps(n, m, s, relief));
}

proof fn lemma_embeds(tokens: Seq<u32>, pos: int, s: InferenceState, n: int)
    requires
        0 <= n <= tokens.len(),
    ensures
        embedded(schedule::embed_steps(tokens, pos, s).take(n)) == Seq::new(
            n as nat,
            |i: int| (tokens[i], (pos + i) as u32),
        ),
    decreases n,
{
    let all = schedule::embed_steps(tokens, pos, s);
    if n > 0 {
        lemma_embeds(tokens, pos, s, n - 1);
        assert(all.take(n).drop_last() =~= all.take(n - 1));
    }
    assert(embedded(all.take(n)) =~= Seq::new(n as nat, |i: int| (tokens[i], (pos + i) as u32)));
}

/// A prefill embeds every token at its place, begins over at the start of the
/// sequence, runs all layers over all tokens at once and leaves them processed.
pub proof fn law_prefill_takes_all_tokens(n: u32, tokens: Seq<u32>, s: InferenceState)
    requires
        tokens.len() < u32::MAX,
    ensures
        ({
            let steps = schedule::prefill_steps(n, tokens, s);
            let t = tokens.len() as int;
            let first = InferenceState { position: s.position, seq_len: 0, hidden_ping: true };
            &&& embedded(steps) == in_place(tokens, 0)
            &&& forall|i: int|
                0 <= i < t ==> (#[trigger] steps[i]).action is Embed && steps[i].after == s
            &&& steps[t].action is Start && steps[t].after == first
            &&& steps.subrange(t + 1, steps.len() - 1) == schedule::pass_steps(
                n as nat,
                t as u32,
                first,
                true,
            )
            &&& steps.last().action is Finish
            &&& steps.last().after == InferenceState {
                position: s.position,
                seq_len: t as u32,
                hidden_ping: n % 2 == 0,
            }
        }),
{
    let steps = schedule::prefill_steps(n, tokens, s);
    let t = tokens.len() as int;
    let first = InferenceState { position: s.position, seq_len: 0, hidden_ping: true };
    let e = schedule::embed_steps(tokens, 0, s);
    let start = seq![Step { action: Action::Start, after: first }];
    let pass = schedule::pass_steps(n as nat, t as u32, first, true);
    let finish = seq![steps.last()];
    assert(steps =~= e + start + pass + finish);
    assert(steps.subrange(t + 1, steps.len() - 1) =~= pass);
    lemma_embeds(tokens, 0, s, t);
    assert(e.take(t) =~= e);
    lemma_pass_embeds_none(n as nat, t as u32, first, true);
    lemma_none_embedded(start);
    lemma_none_embedded(finish);
    lemma_embedded_join(e, start);
    lemma_embedded_join(e + start, pass);
    lemma_embedded_join(e + start + pass, finish);
    assert(embedded(steps) =~= in_place(tokens, 0));
}

proof fn lemma_incremental(n: u32, tokens: Seq<u32>, s: InferenceState, k: nat)
    requires
        k <= tokens.len(),
        s.seq_len + tokens.len() < u32::MAX,
    ensures
        schedule::incremental_tokens(n, tokens, s, k).len() == k * (1 + 2 * n),
        embedded(schedule::incremental_tokens(n, tokens, s, k)) == Seq::new(
            k,
            |i: int| (tokens[i], (s.seq_len + i) as u32),
        ),
    decreases k,
{
    let all = schedule::incremental_tokens(n, tokens, s, k);
    let goal = Seq::new(k, |i: int| (tokens[i], (s.seq_len + i) as u32));
    if k > 0 {
        let j = (k - 1) as nat;
        lemma_incremental(n, tokens, s, j);
        let before = schedule::incremental_tokens(n, tokens, s, j);
        let state = schedule::entering(s, j as int);
        let pass = schedule::pass_steps(n as nat, 1, state, false);
        let e = seq![all[before.len() as int]];
        lemma_pass_len(n as nat, 1, state, false);
        assert(all =~= before + e + pass);
        lemma_pass_embeds_none(n as nat, 1, state, false);
        lemma_embedded_join(before, e);
        lemma_embedded_join(before + e, pass);
        assert(e.drop_last() =~= Seq::empty());
        assert(embedded(e) =~= seq![(tokens[k - 1], (s.seq_len + k - 1) as u32)]) by {
            assert(embedded(e.drop_last()) =~= Seq::empty());
        }
        assert(k * (1 + 2 * n) == j * (1 + 2 * n) + (1 + 2 * n)) by (nonlinear_arith)
            requires
                k == j + 1,
        ;
    }
    assert(embedded(all) =~= goal);
}

/// An incremental prefill takes its tokens one by one: token `k` is embedded
/// behind those processed and those before it, and all layers run over it alone,
/// at its position, from the first buffer on.
pub proof fn law_new_tokens_run_one_by_one(n: u32, tokens: Seq<u32>, s: InferenceState, k: int)
    requires
        0 <= k < tokens.len(),
        s.seq_len + tokens.len() < u32::MAX,
    ensures
        ({
            let steps = schedule::incremental_steps(n, tokens, s);
            let i = k * (1 + 2 * n);
            let at = (s.seq_len + k) as u32;
            let state = InferenceState { position: at, seq_len: s.seq_len, hidden_ping: true };
            &&& steps.len() == tokens.len() * (1 + 2 * n) + 1
            &&& 0 <= i < steps.len()
            &&& steps[i].action == Action::Embed { token: tokens[k], pos: at }
            &&& steps[i].after == state
            &&& steps.subrange(i + 1, i + 1 + 2 * n) == schedule::pass_steps(
                n as nat,
                1,
                state,
                false,
            )
            &&& steps.last().action is Finish
            &&& steps.last().after == InferenceState {
                position: (s.seq_len + tokens.len() - 1) as u32,
                seq_len: (s.seq_len + tokens.len()) as u32,
                hidden_ping: n % 2 == 0,
            }
        }),
{
    let steps = schedule::incremental_steps(n, tokens, s);
    lemma_incremental(n, tokens, s, tokens.len());
    lemma_token_steps(n, tokens, s, k, tokens.len());
    let i = k * (1 + 2 * n);
    let all = schedule::incremental_tokens(n, tokens, s, tokens.len());
    assert(steps.subrange(i + 1, i + 1 + 2 * n) =~= all.subrange(i + 1, i + 1 + 2 * n));
}

proof fn lemma_token_steps(n: u32, tokens: Seq<u32>, s: InferenceState, k: int, count: nat)
    requires
        0 <= k < count <= tokens.len(),
        s.seq_len + tokens.len() < u32::MAX,
    ensures
        ({
            let steps = schedule::incremental_tokens(n, tokens, s, count);
            let i = k * (1 + 2 * n);
            let at = (s.seq_len + k) as u32;
            let state = InferenceState { position: at, seq_len: s.seq_len, hidden_ping: true };
            &&& 0 <= i
            &&& i + 1 + 2 * n <= steps.len()
            &&& steps[i].action == Action::Embed { token: tokens[k], pos: at }
            &&& steps[i].after == state
            &&& steps.subrange(i + 1, i + 1 + 2 * n) == schedule::pass_steps(
                n as nat,
                1,
                state,
                false,
            )
        }),
    decreases count,
{
    let steps = schedule::incremental_tokens(n, tokens, s, count);
    let j = (count - 1) as nat;
    let before = schedule::incremental_tokens(n, tokens, s, j);
    let i = k * (1 + 2 * n);
    assert(0 <= i) by (nonlinear_arith)
        requires
            0 <= k,
            i == k * (1 + 2 * n),
    ;
    let state = schedule::entering(s, j as int);
    lemma_pass_len(n as nat, 1, state, false);
    lemma_incremental(n, tokens, s, j);
    if k < j {
        lemma_token_steps(n, tokens, s, k, j);
        assert(steps.subrange(i + 1, i + 1 + 2 * n) =~= before.subrange(i + 1, i + 1 + 2 * n));
    } else {
        assert(steps.subrange(i + 1, i + 1 + 2 * n) =~= schedule::pass_steps(
            n as nat,
            1,
            state,
            false,
        ));
    }
}

/// Before a token is chosen, every token of the conversation that is not yet
/// processed is embedded at its place, once and in order, and no other. The
/// choice is the last step; it reads the buffer that the last layer wrote.
pub proof fn law_conversation_is_embedded(n: u32, tokens: Seq<u32>, s: InferenceState)
    requires
        tokens.len() < u32::MAX,
    ensures
        ({
            let steps = schedule::generate_steps(n, tokens, s);
            let caught_up = tokens.len() <= s.seq_len && s.seq_len > 0;
            &&& embedded(steps) == in_place(
                tokens,
                if caught_up {
                    tokens.len() as int
                } else {
                    s.seq_len as int
                },
            )
            &&& caught_up ==> steps.last().action == Action::Head {
                ping: s.hidden_ping == (n % 2 == 0),
            }
            &&& !caught_up && tokens.len() > 0 ==> steps.last().action == Action::Head {
                ping: true,
            }
            &&& steps.last().after.hidden_ping == steps.last().action->Head_ping
        }),
{
    let steps = schedule::generate_steps(n, tokens, s);
    let first = schedule::catch_up_steps(n, tokens, s);
    let mid = schedule::state_after(first, s);
    let pass = schedule::pass_steps(n as nat, 1, mid, false);
    let head = seq![steps.last()];
    assert(steps =~= first + pass + head);
    lemma_pass_embeds_none(n as nat, 1, mid, false);
    lemma_none_embedded(head);
    lemma_embedded_join(first, pass);
    lemma_embedded_join(first + pass, head);
    if s.seq_len == 0 {
        law_prefill_takes_all_tokens(n, tokens, s);
        assert(embedded(steps) =~= in_place(tokens, 0));
    } else if tokens.len() > s.seq_len {
        let new = tokens.skip(s.seq_len as int);
        let all = schedule::incremental_tokens(n, new, s, new.len());
        let finish = seq![first.last()];
        assert(first =~= all + finish);
        lemma_incremental(n, new, s, new.len());
        lemma_none_embedded(finish);
        lemma_embedded_join(all, finish);
        assert(embedded(steps) =~= in_place(tokens, s.seq_len as int));
    } else {
        assert(first =~= Seq::empty());
        assert(embedded(steps) =~= in_place(tokens, tokens.len() as int));
    }
}

/// A chosen token joins the sequence behind those processed. With heads for
/// further tokens the drafts follow it, and one pass over all of them at once
/// begins at its place; without them nothing else is done.
pub proof fn law_chosen_tokens_join(
    n: u32,
    heads: u32,
    main: u32,
    drafts: Seq<u32>,
    s: InferenceState,
)
    requires
        s.seq_len + drafts.len() < u32::MAX,
        s.position < u32::MAX,
    ensures
        ({
            let steps = schedule::join_steps(n, heads, main, drafts, s);
            let d = drafts.len() as int;
            let first = InferenceState {
                position: s.position,
                seq_len: s.seq_len,
                hidden_ping: true,
            };
            &&& steps[0].action == Action::Embed { token: main, pos: s.seq_len }
            &&& heads == 0 ==> steps.len() == 1 && steps[0].after == InferenceState {
                position: (s.position + 1) as u32,
                seq_len: (s.seq_len + 1) as u32,
                hidden_ping: s.hidden_ping,
            }
            &&& heads > 0 ==> {
                &&& steps[0].after == s
                &&& forall|i: int|
                    1 <= i <= d ==> (#[trigger] steps[i]).action == (Action::Embed {
                        token: drafts[i - 1],
                        pos: (s.seq_len + i) as u32,
                    }) && steps[i].after == s
                &&& steps[d + 1].action is Start && steps[d + 1].after == first
                &&& steps.subrange(d + 2, steps.len() - 1) == schedule::pass_steps(
                    n as nat,
                    (d + 1) as u32,
                    first,
                    false,
                )
                &&& steps.last().action is Finish
                &&& steps.last().after == InferenceState {
                    position: (s.seq_len + d) as u32,
                    seq_len: (s.seq_len + d + 1) as u32,
                    hidden_ping: n % 2 == 0,
                }
            }
        }),
{
    if heads > 0 {
        let steps = schedule::join_steps(n, heads, main, drafts, s);
        let d = drafts.len() as int;
        let first = InferenceState {
            position: s.position,
            seq_len: s.seq_len,
            hidden_ping: true,
        };
        assert(steps.subrange(d + 2, steps.len() - 1) =~= schedule::pass_steps(
            n as nat,
            (d + 1) as u32,
            first,
            false,
        ));
    }
}

} // verus!
