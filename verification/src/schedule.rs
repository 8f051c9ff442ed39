//! Forward passes as lists of steps: what is embedded, run and chosen, and
//! the state behind each step.

use crate::inference;
use crate::inference::InferenceState;
use crate::memory::ArenaLayout;
use vstd::prelude::*;

verus! {

/// One thing to do in a forward pass.
#[derive(Clone, Copy, Debug, PartialEq, Eq, Structural)]
pub enum Action {
    /// Write a token's embedding at a position.
    Embed { token: u32, pos: u32 },
    /// Nothing to do: the pass begins.
    Start,
    /// Run a layer up to its routing.
    Layer { layer: u32, is_gqa: bool, m: u32, state: InferenceState },
    /// Let other work have the memory bus.
    Yield,
    /// Read the routing and run the experts of a layer.
    Experts { layer: u32, m: u32, ping: bool },
    /// Project the hidden state to logits and choose a token.
    Head { ping: bool },
    /// Nothing to do: the pass is over.
    Finish,
}

/// An action, and the state once it has succeeded.
#[derive(Clone, Copy, Debug, PartialEq, Eq, Structural)]
pub struct Step {
    pub action: Action,
    pub after: InferenceState,
}

/// The state before layer `k` of a pass: every layer swaps the hidden buffers.
pub open spec fn at_layer(s: InferenceState, k: int) -> InferenceState {
    InferenceState { hidden_ping: s.hidden_ping == (k % 2 == 0), ..s }
}

/// Every fourth layer has full attention.
pub open spec fn is_attention_layer(layer: int) -> bool {
    layer % 4 == 3
}

/// The steps of one layer. In a long prefill every eighth layer gives way.
pub open spec fn layer_steps(k: int, m: u32, s: InferenceState, relief: bool) -> Seq<Step> {
    let before = at_layer(s, k);
    let run = seq![
        Step {
            action: Action::Layer {
                layer: k as u32,
                is_gqa: is_attention_layer(k),
                m,
                state: before,
            },
            after: before,
        },
    ];
    let rest = if relief && k % 8 == 7 && m > 128 {
        seq![Step { action: Action::Yield, after: before }]
    } else {
        Seq::empty()
    };
    let experts = seq![
        Step {
            action: Action::Experts { layer: k as u32, m, ping: before.hidden_ping },
            after: at_layer(s, k + 1),
        },
    ];
    run + rest + experts
}

/// The first `n` layers over `m` tokens.
pub open spec fn pass_steps(n: nat, m: u32, s: InferenceState, relief: bool) -> Seq<Step>
    decreases n,
{
    if n == 0 {
        Seq::empty()
    } else {
        pass_steps((n - 1) as nat, m, s, relief) + layer_steps(n - 1, m, s, relief)
    }
}

/// The embeddings of `tokens` from `pos` on; the state stays.
pub open spec fn embed_steps(tokens: Seq<u32>, pos: int, s: InferenceState) -> Seq<Step> {
    Seq::new(
        tokens.len(),
        |i: int|
            Step {
                action: Action::Embed { token: tokens[i], pos: (pos + i) as u32 },
                after: s,
            },
    )
}

/// Prefill: all tokens in one batch from the start.
pub open spec fn prefill_steps(n: u32, tokens: Seq<u32>, s: InferenceState) -> Seq<Step> {
    let m = tokens.len() as u32;
    let first = InferenceState { seq_len: 0, hidden_ping: true, ..s };
    embed_steps(tokens, 0, s) + seq![Step { action: Action::Start, after: first }] + pass_steps(
        n as nat,
        m,
        first,
        true,
    ) + seq![
        Step {
            action: Action::Finish,
            after: InferenceState { seq_len: m, ..at_layer(first, n as int) },
        },
    ]
}

/// The state in which new token `i` enters an incremental prefill.
pub open spec fn entering(s: InferenceState, i: int) -> InferenceState {
    InferenceState { position: (s.seq_len + i) as u32, hidden_ping: true, ..s }
}

/// The first `k` tokens of an incremental prefill, one at a time.
pub open spec fn incremental_tokens(
    n: u32,
    tokens: Seq<u32>,
    s: InferenceState,
    k: nat,
) -> Seq<Step>
    decreases k,
{
    if k == 0 {
        Seq::empty()
    } else {
        let state = entering(s, k - 1);
        incremental_tokens(n, tokens, s, (k - 1) as nat) + seq![
            Step {
                action: Action::Embed { token: tokens[k - 1], pos: (s.seq_len + k - 1) as u32 },
                after: state,
            },
        ] + pass_steps(n as nat, 1, state, false)
    }
}

/// The state behind an incremental prefill.
pub open spec fn after_incremental(n: u32, s: InferenceState, count: nat) -> InferenceState {
    let last = if count == 0 {
        s
    } else {
        at_layer(entering(s, count - 1), n as int)
    };
    InferenceState { seq_len: (s.seq_len + count) as u32, ..last }
}

/// Incremental prefill: new tokens on top of the cache, one at a time.
pub open spec fn incremental_steps(n: u32, tokens: Seq<u32>, s: InferenceState) -> Seq<Step> {
    incremental_tokens(n, tokens, s, tokens.len()) + seq![
        Step { action: Action::Finish, after: after_incremental(n, s, tokens.len()) },
    ]
}

/// One token through all layers, and the choice of the next one.
pub open spec fn forward_steps(n: u32, s: InferenceState) -> Seq<Step> {
    let last = at_layer(s, n as int);
    pass_steps(n as nat, 1, s, false) + seq![
        Step { action: Action::Head { ping: last.hidden_ping }, after: last },
    ]
}

/// The chosen token joins the sequence.
pub open spec fn commit_step(token: u32, s: InferenceState) -> Step {
    Step {
        action: Action::Embed { token, pos: s.seq_len },
        after: InferenceState {
            position: (s.position + 1) as u32,
            seq_len: (s.seq_len + 1) as u32,
            ..s
        },
    }
}

/// All accepted tokens join the sequence from `base` on, and one batched pass
/// extends the cache for them.
pub open spec fn accept_steps(
    n: u32,
    tokens: Seq<u32>,
    base: u32,
    s: InferenceState,
) -> Seq<Step> {
    let m = tokens.len() as u32;
    let first = InferenceState { seq_len: base, hidden_ping: true, ..s };
    embed_steps(tokens, base as int, s) + seq![
        Step { action: Action::Start, after: first },
    ] + pass_steps(n as nat, m, first, false) + seq![
        Step {
            action: Action::Finish,
            after: InferenceState {
                seq_len: (base + m) as u32,
                position: (base + m - 1) as u32,
                ..at_layer(first, n as int)
            },
        },
    ]
}

/// The steps that process what of the conversation is new: all of it at the
/// start, later the tokens behind those processed, if there are any.
pub open spec fn catch_up_steps(n: u32, tokens: Seq<u32>, s: InferenceState) -> Seq<Step> {
    if s.seq_len == 0 {
        prefill_steps(n, tokens, s)
    } else if tokens.len() > s.seq_len {
        incremental_steps(n, tokens.skip(s.seq_len as int), s)
    } else {
        Seq::empty()
    }
}

/// The state behind steps that started in `s`.
pub open spec fn state_after(steps: Seq<Step>, s: InferenceState) -> InferenceState {
    if steps.len() == 0 {
        s
    } else {
        steps.last().after
    }
}

/// The steps up to the choice of the next token of a conversation.
pub open spec fn generate_steps(n: u32, tokens: Seq<u32>, s: InferenceState) -> Seq<Step> {
    let first = catch_up_steps(n, tokens, s);
    first + forward_steps(n, state_after(first, s))
}

/// The steps behind the choice of a token. With heads for further tokens it
/// joins the sequence together with the drafts, without them alone.
pub open spec fn join_steps(
    n: u32,
    heads: u32,
    main: u32,
    drafts: Seq<u32>,
    s: InferenceState,
) -> Seq<Step> {
    if heads == 0 {
        seq![commit_step(main, s)]
    } else {
        accept_steps(n, seq![main] + drafts, s.seq_len, s)
    }
}

fn toggled(s: &InferenceState, k: u32) -> (r: InferenceState)
    ensures
        r == at_layer(*s, k as int),
{
    InferenceState {
        position: s.position,
        seq_len: s.seq_len,
        hidden_ping: s.hidden_ping == (k % 2 == 0),
    }
}

fn push_layer(steps: &mut Vec<Step>, k: u32, m: u32, s: &InferenceState, relief: bool)
    ensures
        final(steps)@ == old(steps)@ + layer_steps(k as int, m, *s, relief),
{
    let ghost before = steps@;
    let state: InferenceState = toggled(s, k);
    steps.push(
        Step { action: Action::Layer { layer: k, is_gqa: k % 4 == 3, m, state }, after: state },
    );
    if relief && k % 8 == 7 && m > 128 {
        steps.push(Step { action: Action::Yield, after: state });
    }
    let next: InferenceState = InferenceState {
        position: state.position,
        seq_len: state.seq_len,
        hidden_ping: !state.hidden_ping,
    };
    steps.push(
        Step { action: Action::Experts { layer: k, m, ping: state.hidden_ping }, after: next },
    );
    assert(next == at_layer(*s, k + 1));
    assert(steps@ =~= before + layer_steps(k as int, m, *s, relief));
}

fn push_pass(steps: &mut Vec<Step>, n: u32, m: u32, s: &InferenceState, relief: bool)
    ensures
        final(steps)@ == old(steps)@ + pass_steps(n as nat, m, *s, relief),
{
    let ghost start = steps@;
    let mut k: u32 = 0;
    assert(steps@ =~= start + pass_steps(0, m, *s, relief));
    while k < n
        invariant
            k <= n,
            steps@ == start + pass_steps(k as nat, m, *s, relief),
        decreases n - k,
    {
        let ghost done = pass_steps(k as nat, m, *s, relief);
        push_layer(steps, k, m, s, relief);
        k = k + 1;
        assert(steps@ =~= start + (done + layer_steps(k - 1, m, *s, relief)));
    }
}

fn push_embeds(steps: &mut Vec<Step>, tokens: &[u32], pos: u32, s: &InferenceState)
    requires
        pos + tokens@.len() <= u32::MAX,
    ensures
        final(steps)@ == old(steps)@ + embed_steps(tokens@, pos as int, *s),
{
    let ghost start = steps@;
    let mut i: usize = 0;
    while i < tokens.len()
        invariant
            i <= tokens@.len(),
            pos + tokens@.len() <= u32::MAX,
            steps@ == start + embed_steps(tokens@, pos as int, *s).take(i as int),
        decreases tokens.len() - i,
    {
        let ghost before = steps@;
        steps.push(
            Step { action: Action::Embed { token: tokens[i], pos: pos + i as u32 }, after: *s },
        );
        i = i + 1;
        assert(steps@ =~= start + embed_steps(tokens@, pos as int, *s).take(i as int));
    }
    assert(embed_steps(tokens@, pos as int, *s).take(i as int) =~= embed_steps(
        tokens@,
        pos as int,
        *s,
    ));
}

/// The steps of a prefill of all tokens, in a model of `n` layers.
pub fn prefill(n: u32, tokens: &[u32], s: &InferenceState) -> (steps: Vec<Step>)
    requires
        tokens@.len() <= u32::MAX,
    ensures
        steps@ == prefill_steps(n, tokens@, *s),
{
    let mut steps: Vec<Step> = Vec::new();
    let m: u32 = tokens.len() as u32;
    let first: InferenceState = InferenceState {
        position: s.position,
        seq_len: 0,
        hidden_ping: true,
    };
    push_embeds(&mut steps, tokens, 0, s);
    steps.push(Step { action: Action::Start, after: first });
    push_pass(&mut steps, n, m, &first, true);
    let last: InferenceState = toggled(&first, n);
    steps.push(
        Step {
            action: Action::Finish,
            after: InferenceState {
                position: last.position,
                seq_len: m,
                hidden_ping: last.hidden_ping,
            },
        },
    );
    assert(steps@ =~= prefill_steps(n, tokens@, *s));
    steps
}

/// The steps of an incremental prefill of new tokens.
pub fn prefill_incremental(n: u32, tokens: &[u32], s: &InferenceState) -> (steps: Vec<Step>)
    requires
        s.seq_len + tokens@.len() <= u32::MAX,
    ensures
        steps@ == incremental_steps(n, tokens@, *s),
{
    let mut steps: Vec<Step> = Vec::new();
    let mut last: InferenceState = *s;
    let mut i: usize = 0;
    assert(steps@ =~= incremental_tokens(n, tokens@, *s, 0));
    while i < tokens.len()
        invariant
            i <= tokens@.len(),
            s.seq_len + tokens@.len() <= u32::MAX,
            steps@ == incremental_tokens(n, tokens@, *s, i as nat),
            last == if i == 0 {
                *s
            } else {
                at_layer(entering(*s, i - 1), n as int)
            },
        decreases tokens.len() - i,
    {
        let pos: u32 = s.seq_len + i as u32;
        let state: InferenceState = InferenceState {
            position: pos,
            seq_len: s.seq_len,
            hidden_ping: true,
        };
        steps.push(Step { action: Action::Embed { token: tokens[i], pos }, after: state });
        push_pass(&mut steps, n, 1, &state, false);
        last = toggled(&state, n);
        i = i + 1;
        assert(steps@ =~= incremental_tokens(n, tokens@, *s, i as nat));
    }
    steps.push(
        Step {
            action: Action::Finish,
            after: InferenceState {
                position: last.position,
                seq_len: s.seq_len + tokens.len() as u32,
                hidden_ping: last.hidden_ping,
            },
        },
    );
    assert(steps@ =~= incremental_steps(n, tokens@, *s));
    steps
}

/// The steps that process the newest token and choose the next one.
pub fn forward_single(n: u32, s: &InferenceState) -> (steps: Vec<Step>)
    ensures
        steps@ == forward_steps(n, *s),
{
    let mut steps: Vec<Step> = Vec::new();
    push_pass(&mut steps, n, 1, s, false);
    let last: InferenceState = toggled(s, n);
    steps.push(Step { action: Action::Head { ping: last.hidden_ping }, after: last });
    assert(steps@ =~= forward_steps(n, *s));
    steps
}

/// The step that appends the chosen token.
pub fn commit(token: u32, s: &InferenceState) -> (r: Step)
    requires
        s.seq_len < u32::MAX,
        s.position < u32::MAX,
    ensures
        r == commit_step(token, *s),
{
    Step {
        action: Action::Embed { token, pos: s.seq_len },
        after: InferenceState {
            position: s.position + 1,
            seq_len: s.seq_len + 1,
            hidden_ping: s.hidden_ping,
        },
    }
}

/// The main token and all drafts.
pub fn accepted_tokens(main: u32, drafts: &[u32]) -> (r: Vec<u32>)
    ensures
        r@ == seq![main] + drafts@,
{
    let mut out: Vec<u32> = vec![main];
    let mut i: usize = 0;
    while i < drafts.len()
        invariant
            i <= drafts@.len(),
            out@ == seq![main] + drafts@.take(i as int),
        decreases drafts.len() - i,
    {
        out.push(drafts[i]);
        i = i + 1;
        assert(out@ =~= seq![main] + drafts@.take(i as int));
    }
    assert(drafts@.take(i as int) =~= drafts@);
    out
}

/// The steps that append all accepted tokens from `base` on. A layer that fails
/// is passed over, so that the state goes on in any case.
pub fn accept(n: u32, tokens: &[u32], base: u32, s: &InferenceState) -> (steps: Vec<Step>)
    requires
        tokens@.len() > 0,
        base + tokens@.len() <= u32::MAX,
    ensures
        steps@ == accept_steps(n, tokens@, base, *s),
{
    let mut steps: Vec<Step> = Vec::new();
    let m: u32 = tokens.len() as u32;
    let first: InferenceState = InferenceState {
        position: s.position,
        seq_len: base,
        hidden_ping: true,
    };
    push_embeds(&mut steps, tokens, base, s);
    steps.push(Step { action: Action::Start, after: first });
    push_pass(&mut steps, n, m, &first, false);
    let last: InferenceState = toggled(&first, n);
    steps.push(
        Step {
            action: Action::Finish,
            after: InferenceState {
                position: base + m - 1,
                seq_len: base + m,
                hidden_ping: last.hidden_ping,
            },
        },
    );
    assert(steps@ =~= accept_steps(n, tokens@, base, *s));
    steps
}

/// The steps up to the choice of the next token of a conversation.
pub fn generate(n: u32, tokens: &[u32], s: &InferenceState) -> (steps: Vec<Step>)
    requires
        tokens@.len() <= u32::MAX,
    ensures
        steps@ == generate_steps(n, tokens@, *s),
{
    let mut steps: Vec<Step> = if s.seq_len == 0 {
        prefill(n, tokens, s)
    } else if tokens.len() > s.seq_len as usize {
        let new: &[u32] = vstd::slice::slice_subrange(tokens, s.seq_len as usize, tokens.len());
        assert(new@ =~= tokens@.skip(s.seq_len as int));
        prefill_incremental(n, new, s)
    } else {
        Vec::new()
    };
    let ghost first = steps@;
    let mid: InferenceState = if steps.len() == 0 {
        *s
    } else {
        steps[steps.len() - 1].after
    };
    let mut forward: Vec<Step> = forward_single(n, &mid);
    steps.append(&mut forward);
    steps
}

/// The steps behind the choice of a token.
pub fn generate_mtp(n: u32, heads: u32, main: u32, drafts: &[u32], s: &InferenceState) -> (steps:
    Vec<Step>)
    requires
        s.seq_len + drafts@.len() < u32::MAX,
        heads == 0 ==> s.position < u32::MAX,
    ensures
        steps@ == join_steps(n, heads, main, drafts@, *s),
{
    if heads == 0 {
        vec![commit(main, s)]
    } else {
        let tokens: Vec<u32> = accepted_tokens(main, drafts);
        accept(n, tokens.as_slice(), s.seq_len, s)
    }
}

/// With a generated token, all tokens of the conversation are processed and
/// one more.
pub proof fn law_generation_advances(n: u32, tokens: Seq<u32>, s: InferenceState, token: u32)
    requires
        tokens.len() < u32::MAX,
        s.seq_len < u32::MAX,
    ensures
        ({
            let chosen = generate_steps(n, tokens, s).last().after;
            let next = commit_step(token, chosen).after;
            let known = if tokens.len() > s.seq_len {
                tokens.len() as int
            } else {
                s.seq_len as int
            };
            chosen.seq_len == known && next.seq_len == known + 1
        }),
{
    let first = catch_up_steps(n, tokens, s);
    let mid = state_after(first, s);
    assert(generate_steps(n, tokens, s).last() == forward_steps(n, mid).last());
}

/// Every way to process a conversation leaves the same number of tokens
/// processed.
pub proof fn law_ways_agree(n: u32, tokens: Seq<u32>, s: InferenceState, k: int)
    requires
        0 < k <= tokens.len() < u32::MAX,
    ensures
        ({
            let whole = state_after(prefill_steps(n, tokens, s), s);
            let part = state_after(prefill_steps(n, tokens.take(k), s), s);
            let rest = state_after(catch_up_steps(n, tokens, part), part);
            whole.seq_len == rest.seq_len
        }),
{
}

/// Accepting a token and its drafts leaves all of them processed, with the
/// position of the last one.
pub proof fn law_acceptance_advances(n: u32, tokens: Seq<u32>, base: u32, s: InferenceState)
    requires
        tokens.len() > 0,
        base + tokens.len() <= u32::MAX,
    ensures
        ({
            let after = accept_steps(n, tokens, base, s).last().after;
            after.seq_len == base + tokens.len() && after.position == after.seq_len - 1
        }),
{
}

/// Every layer of a pass reads the buffer that the layer before it wrote.
pub proof fn law_layers_alternate(l: ArenaLayout, s: InferenceState, k: int)
    requires
        0 <= k,
    ensures
        inference::hidden_in(l, at_layer(s, k + 1).hidden_ping) == inference::hidden_out(l, at_layer(s, k).hidden_ping),
        inference::hidden_in(l, at_layer(s, 0).hidden_ping) == inference::hidden_in(l, s.hidden_ping),
{
}

/// The layers that the steps run, in order.
pub open spec fn layers_run(steps: Seq<Step>) -> Seq<u32>
    decreases steps.len(),
{
    if steps.len() == 0 {
        Seq::empty()
    } else {
        match steps.last().action {
            Action::Layer { layer, is_gqa, m, state } => layers_run(steps.drop_last()).push(layer),
            _ => layers_run(steps.drop_last()),
        }
    }
}

/// The layers whose experts the steps run, in order.
pub open spec fn experts_run(steps: Seq<Step>) -> Seq<u32>
    decreases steps.len(),
{
    if steps.len() == 0 {
        Seq::empty()
    } else {
        match steps.last().action {
            Action::Experts { layer, m, ping } => experts_run(steps.drop_last()).push(layer),
            _ => experts_run(steps.drop_last()),
        }
    }
}

proof fn lemma_runs_join(a: Seq<Step>, b: Seq<Step>)
    ensures
        layers_run(a + b) == layers_run(a) + layers_run(b),
        experts_run(a + b) == experts_run(a) + experts_run(b),
    decreases b.len(),
{
    if b.len() == 0 {
        assert(a + b =~= a);
        assert(layers_run(a) + layers_run(b) =~= layers_run(a));
        assert(experts_run(a) + experts_run(b) =~= experts_run(a));
    } else {
        lemma_runs_join(a, b.drop_last());
        assert((a + b).drop_last() =~= a + b.drop_last());
        assert(layers_run(a + b) =~= layers_run(a) + layers_run(b));
        assert(experts_run(a + b) =~= experts_run(a) + experts_run(b));
    }
}

proof fn lemma_layer_runs(k: int, m: u32, s: InferenceState, relief: bool)
    ensures
        layers_run(layer_steps(k, m, s, relief)) == seq![k as u32],
        experts_run(layer_steps(k, m, s, relief)) == seq![k as u32],
{
    let all = layer_steps(k, m, s, relief);
    let none = Seq::<Step>::empty();
    assert(layers_run(none) =~= Seq::<u32>::empty() && experts_run(none) =~= Seq::<u32>::empty());
    let one = all.take(1);
    assert(one.drop_last() =~= none);
    assert(layers_run(one) =~= seq![k as u32]);
    assert(experts_run(one) =~= Seq::<u32>::empty());
    if all.len() == 3 {
        let two = all.take(2);
        assert(two.drop_last() =~= one);
        assert(layers_run(two) =~= seq![k as u32]);
        assert(experts_run(two) =~= Seq::<u32>::empty());
        assert(all.drop_last() =~= two);
    } else {
        assert(all.drop_last() =~= one);
    }
    assert(experts_run(all) =~= seq![k as u32]);
}

/// A pass runs every layer once and in order, and the experts of every layer.
pub proof fn law_pass_runs_every_layer(n: nat, m: u32, s: InferenceState, relief: bool)
    ensures
        layers_run(pass_steps(n, m, s, relief)) == Seq::new(n, |k: int| k as u32),
        experts_run(pass_steps(n, m, s, relief)) == Seq::new(n, |k: int| k as u32),
    decreases n,
{
    if n == 0 {
        assert(layers_run(pass_steps(n, m, s, relief)) =~= Seq::new(n, |k: int| k as u32));
        assert(experts_run(pass_steps(n, m, s, relief)) =~= Seq::new(n, |k: int| k as u32));
    } else {
        law_pass_runs_every_layer((n - 1) as nat, m, s, relief);
        lemma_runs_join(
            pass_steps((n - 1) as nat, m, s, relief),
            layer_steps(n - 1, m, s, relief),
        );
        lemma_layer_runs(n - 1, m, s, relief);
        assert(layers_run(pass_steps(n, m, s, relief)) =~= Seq::new(n, |k: int| k as u32));
        assert(experts_run(pass_steps(n, m, s, relief)) =~= Seq::new(n, |k: int| k as u32));
    }
}

/// How many of the first `n` layers have full attention.
pub open spec fn attention_layers(n: nat) -> nat
    decreases n,
{
    if n == 0 {
        0
    } else {
        attention_layers((n - 1) as nat) + if is_attention_layer(n - 1) {
            1nat
        } else {
            0
        }
    }
}

/// One layer in four has full attention.
pub proof fn law_attention_share(n: nat)
    ensures
        attention_layers(n) == n / 4,
    decreases n,
{
    if n > 0 {
        law_attention_share((n - 1) as nat);
    }
}

} // verus!
