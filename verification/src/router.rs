//! Routing of tokens to experts.

use crate::sampling;
use vstd::prelude::*;

verus! {

/// The experts of one token: eight routed ones with their weights, and the
/// shared one, which is always active. Weights are bit patterns of 32-bit floats.
#[derive(Clone, Copy, Debug)]
pub struct RoutingOutput {
    pub routed: [u16; 8],
    pub weights: [u32; 8],
    pub shared_id: u16,
}

/// One, as a 32-bit float.
pub const ONE_BITS: u32 = 0x3f80_0000;

/// The number of slots of all tokens.
pub open spec fn slot_count(routing: Seq<RoutingOutput>) -> int {
    9 * routing.len() as int
}

/// The expert of slot `s`, where the slots of a token follow those of the one before.
pub open spec fn slot_expert(routing: Seq<RoutingOutput>, s: int) -> u16 {
    let r = routing[s / 9];
    if s % 9 < 8 {
        r.routed[s % 9]
    } else {
        r.shared_id
    }
}

/// The weight of slot `s`: the routed weight, or one for the shared expert.
pub open spec fn slot_weight(routing: Seq<RoutingOutput>, s: int) -> u32 {
    if s % 9 < 8 {
        routing[s / 9].weights[s % 9]
    } else {
        ONE_BITS
    }
}

/// Every token goes to experts that there are.
pub open spec fn experts_exist(routing: Seq<RoutingOutput>, num_experts: u32) -> bool {
    forall|s: int|
        0 <= s < slot_count(routing) ==> (#[trigger] slot_expert(routing, s)) < num_experts
}

/// How many of the first `n` slots go to expert `e`.
pub open spec fn count(routing: Seq<RoutingOutput>, n: nat, e: int) -> nat
    decreases n,
{
    if n == 0 {
        0
    } else {
        count(routing, (n - 1) as nat, e) + if slot_expert(routing, n - 1) == e {
            1nat
        } else {
            0
        }
    }
}

/// How many of the first `n` slots go to an expert before `e`.
pub open spec fn below(routing: Seq<RoutingOutput>, n: nat, e: nat) -> nat
    decreases e,
{
    if e == 0 {
        0
    } else {
        below(routing, n, (e - 1) as nat) + count(routing, n, e - 1)
    }
}

/// Where slot `s` comes when all slots are ordered by expert, and by slot for
/// one expert.
pub open spec fn place(routing: Seq<RoutingOutput>, s: int) -> int {
    let x = slot_expert(routing, s);
    below(routing, slot_count(routing) as nat, x as nat) + count(routing, s as nat, x as int) as int
}

proof fn lemma_count_grows(routing: Seq<RoutingOutput>, k: nat, n: nat, e: int)
    requires
        k <= n,
    ensures
        count(routing, k, e) <= count(routing, n, e),
    decreases n,
{
    if k < n {
        lemma_count_grows(routing, k, (n - 1) as nat, e);
    }
}

/// No expert has more slots than there are.
pub proof fn lemma_count_bound(routing: Seq<RoutingOutput>, n: nat, e: int)
    ensures
        count(routing, n, e) <= n,
    decreases n,
{
    if n > 0 {
        lemma_count_bound(routing, (n - 1) as nat, e);
    }
}

proof fn lemma_below_grows(routing: Seq<RoutingOutput>, n: nat, d: nat, e: nat)
    requires
        d <= e,
    ensures
        below(routing, n, d) <= below(routing, n, e),
    decreases e,
{
    if d < e {
        lemma_below_grows(routing, n, d, (e - 1) as nat);
    }
}

/// One slot more adds one below every later expert, and none below the others.
proof fn lemma_below_step(routing: Seq<RoutingOutput>, n: nat, e: nat)
    ensures
        below(routing, n + 1, e) == below(routing, n, e) + if slot_expert(routing, n as int) < e {
            1nat
        } else {
            0
        },
    decreases e,
{
    if e > 0 {
        lemma_below_step(routing, n, (e - 1) as nat);
    }
}

/// All slots are below the number of experts.
proof fn lemma_below_all(routing: Seq<RoutingOutput>, n: nat, num_experts: u32)
    requires
        experts_exist(routing, num_experts),
        n <= slot_count(routing),
    ensures
        below(routing, n, num_experts as nat) == n,
    decreases n,
{
    if n == 0 {
        lemma_below_none(routing, num_experts as nat);
    } else {
        lemma_below_all(routing, (n - 1) as nat, num_experts);
        lemma_below_step(routing, (n - 1) as nat, num_experts as nat);
        assert(slot_expert(routing, n - 1) < num_experts);
    }
}

proof fn lemma_below_none(routing: Seq<RoutingOutput>, e: nat)
    ensures
        below(routing, 0, e) == 0,
    decreases e,
{
    if e > 0 {
        lemma_below_none(routing, (e - 1) as nat);
    }
}

/// Every slot comes within the range of its expert.
pub proof fn law_place_in_range(routing: Seq<RoutingOutput>, num_experts: u32, s: int)
    requires
        experts_exist(routing, num_experts),
        0 <= s < slot_count(routing),
    ensures
        ({
            let n = slot_count(routing) as nat;
            let x = slot_expert(routing, s) as nat;
            &&& below(routing, n, x) <= place(routing, s) < below(routing, n, x + 1)
            &&& below(routing, n, x + 1) <= n
        }),
{
    let n = slot_count(routing) as nat;
    let x = slot_expert(routing, s) as nat;
    assert(slot_expert(routing, s) < num_experts);
    lemma_count_grows(routing, (s + 1) as nat, n, x as int);
    lemma_below_grows(routing, n, x + 1, num_experts as nat);
    lemma_below_all(routing, n, num_experts);
}

/// No two slots come to the same place, so that ordering by expert loses none.
pub proof fn law_places_differ(routing: Seq<RoutingOutput>, num_experts: u32, s: int, t: int)
    requires
        experts_exist(routing, num_experts),
        0 <= s < t < slot_count(routing),
    ensures
        place(routing, s) != place(routing, t),
        slot_expert(routing, s) == slot_expert(routing, t) ==> place(routing, s) < place(
            routing,
            t,
        ),
{
    let n = slot_count(routing) as nat;
    let x = slot_expert(routing, s) as nat;
    let y = slot_expert(routing, t) as nat;
    law_place_in_range(routing, num_experts, s);
    law_place_in_range(routing, num_experts, t);
    if x == y {
        lemma_count_grows(routing, (s + 1) as nat, t as nat, x as int);
    } else if x < y {
        lemma_below_grows(routing, n, x + 1, y);
    } else {
        lemma_below_grows(routing, n, y + 1, x);
    }
}

/// The ranges of the experts cover all slots: the first starts at zero, each
/// ends where the next one starts, as long as the slots of its expert, and the
/// last one ends with the last slot.
pub proof fn law_ranges_cover(routing: Seq<RoutingOutput>, num_experts: u32, e: nat)
    requires
        experts_exist(routing, num_experts),
        e < num_experts,
    ensures
        ({
            let n = slot_count(routing) as nat;
            &&& below(routing, n, 0) == 0
            &&& below(routing, n, e + 1) - below(routing, n, e) == count(routing, n, e as int)
            &&& below(routing, n, num_experts as nat) == n
        }),
{
    lemma_below_all(routing, slot_count(routing) as nat, num_experts);
}

/// No range starts behind the last slot.
pub proof fn lemma_range_below_total(routing: Seq<RoutingOutput>, num_experts: u32, e: nat)
    requires
        experts_exist(routing, num_experts),
        e <= num_experts,
    ensures
        below(routing, slot_count(routing) as nat, e) <= slot_count(routing),
{
    lemma_below_grows(routing, slot_count(routing) as nat, e, num_experts as nat);
    lemma_below_all(routing, slot_count(routing) as nat, num_experts);
}

/// The expert of slot `s`.
fn expert_of(routing: &[RoutingOutput], s: usize) -> (e: u16)
    requires
        s < slot_count(routing@),
    ensures
        e == slot_expert(routing@, s as int),
{
    let i: usize = s % 9;
    if i < 8 {
        routing[s / 9].routed[i]
    } else {
        routing[s / 9].shared_id
    }
}

/// The weight of slot `s`.
fn weight_of(routing: &[RoutingOutput], s: usize) -> (w: u32)
    requires
        s < slot_count(routing@),
    ensures
        w == slot_weight(routing@, s as int),
{
    let i: usize = s % 9;
    if i < 8 {
        routing[s / 9].weights[i]
    } else {
        ONE_BITS
    }
}

/// How many slots each expert has.
fn count_slots(routing: &[RoutingOutput], num_experts: u32) -> (counts: Vec<u32>)
    requires
        slot_count(routing@) <= u32::MAX,
        experts_exist(routing@, num_experts),
    ensures
        counts@.len() == num_experts,
        forall|e: int|
            0 <= e < num_experts ==> #[trigger] counts@[e] == count(
                routing@,
                slot_count(routing@) as nat,
                e,
            ),
{
    let total: usize = routing.len() * 9;
    let mut counts: Vec<u32> = vec![0u32; num_experts as usize];
    let mut s: usize = 0;
    while s < total
        invariant
            s <= total,
            total == slot_count(routing@),
            total <= u32::MAX,
            experts_exist(routing@, num_experts),
            counts@.len() == num_experts,
            forall|e: int|
                0 <= e < num_experts ==> #[trigger] counts@[e] == count(routing@, s as nat, e),
            forall|e: int| 0 <= e < num_experts ==> #[trigger] counts@[e] <= s,
        decreases total - s,
    {
        let x: usize = expert_of(routing, s) as usize;
        assert(slot_expert(routing@, s as int) < num_experts);
        let c: u32 = counts[x];
        counts[x] = c + 1;
        s = s + 1;
    }
    counts
}

/// Where each expert's range starts, and where the last one ends.
fn prefix_sums(routing: &[RoutingOutput], num_experts: u32) -> (ranges: Vec<u32>)
    requires
        slot_count(routing@) <= u32::MAX,
        experts_exist(routing@, num_experts),
    ensures
        ranges@.len() == num_experts + 1,
        forall|e: int|
            0 <= e <= num_experts ==> #[trigger] ranges@[e] == below(
                routing@,
                slot_count(routing@) as nat,
                e as nat,
            ),
{
    let counts: Vec<u32> = count_slots(routing, num_experts);
    let ghost n = slot_count(routing@) as nat;
    let mut ranges: Vec<u32> = vec![0u32];
    let mut i: usize = 0;
    while i < num_experts as usize
        invariant
            i <= num_experts,
            n == slot_count(routing@),
            n <= u32::MAX,
            experts_exist(routing@, num_experts),
            counts@.len() == num_experts,
            forall|e: int|
                0 <= e < num_experts ==> #[trigger] counts@[e] == count(routing@, n, e),
            ranges@.len() == i + 1,
            forall|e: int|
                0 <= e <= i ==> #[trigger] ranges@[e] == below(routing@, n, e as nat),
        decreases num_experts - i,
    {
        proof {
            lemma_below_grows(routing@, n, (i + 1) as nat, num_experts as nat);
            lemma_below_all(routing@, n, num_experts);
            assert(below(routing@, n, (i + 1) as nat) == below(routing@, n, i as nat) + count(
                routing@,
                n,
                i as int,
            ));
        }
        let next: u32 = ranges[i] + counts[i];
        ranges.push(next);
        i = i + 1;
    }
    ranges
}

/// The tokens and weights of all slots, ordered by expert: each slot's stand at
/// its place.
pub open spec fn is_batched(
    routing: Seq<RoutingOutput>,
    tokens: Seq<u16>,
    weights: Seq<u32>,
) -> bool {
    &&& tokens.len() == slot_count(routing)
    &&& weights.len() == slot_count(routing)
    &&& forall|s: int|
        0 <= s < slot_count(routing) ==> tokens[#[trigger] place(routing, s)] == (s / 9) as u16
    &&& forall|s: int|
        0 <= s < slot_count(routing) ==> weights[#[trigger] place(routing, s)] == slot_weight(
            routing,
            s,
        )
}

/// Prefill routing: the slots of all tokens, ordered by expert.
///
/// Returns the token of each slot and its weight, and where each expert's range
/// starts, with the total behind the last one.
pub fn build_expert_batches(routing: &[RoutingOutput], num_experts: u32) -> (r: (
    Vec<u16>,
    Vec<u32>,
    Vec<u32>,
))
    requires
        slot_count(routing@) <= u32::MAX,
        experts_exist(routing@, num_experts),
    ensures
        is_batched(routing@, r.0@, r.1@),
        r.2@.len() == num_experts + 1,
        forall|e: int|
            0 <= e <= num_experts ==> #[trigger] r.2@[e] == below(
                routing@,
                slot_count(routing@) as nat,
                e as nat,
            ),
{
    let total: usize = routing.len() * 9;
    let ranges: Vec<u32> = prefix_sums(routing, num_experts);
    let ghost n = slot_count(routing@) as nat;
    let mut sorted_tokens: Vec<u16> = vec![0u16; total];
    let mut sorted_weights: Vec<u32> = vec![0u32; total];
    let mut cursors: Vec<u32> = ranges.clone();
    let mut s: usize = 0;
    assert forall|e: int| 0 <= e < num_experts implies #[trigger] cursors@[e] == below(
        routing@,
        n,
        e as nat,
    ) + count(routing@, 0, e) by {
        assert(ranges@[e] == below(routing@, n, e as nat));
    }
    while s < total
        invariant
            s <= total,
            total == slot_count(routing@),
            n == total,
            total <= u32::MAX,
            experts_exist(routing@, num_experts),
            sorted_tokens@.len() == total,
            sorted_weights@.len() == total,
            cursors@.len() == num_experts + 1,
            forall|e: int|
                0 <= e < num_experts ==> #[trigger] cursors@[e] == below(routing@, n, e as nat)
                    + count(routing@, s as nat, e),
            forall|j: int|
                0 <= j < s ==> sorted_tokens@[#[trigger] place(routing@, j)] == (j / 9) as u16,
            forall|j: int|
                0 <= j < s ==> sorted_weights@[#[trigger] place(routing@, j)] == slot_weight(
                    routing@,
                    j,
                ),
        decreases total - s,
    {
        let x: usize = expert_of(routing, s) as usize;
        proof {
            assert(slot_expert(routing@, s as int) < num_experts);
            law_place_in_range(routing@, num_experts, s as int);
            assert(cursors@[x as int] == place(routing@, s as int));
            assert forall|j: int| 0 <= j < s implies #[trigger] place(routing@, j) != place(
                routing@,
                s as int,
            ) && 0 <= place(routing@, j) < total by {
                law_places_differ(routing@, num_experts, j, s as int);
                law_place_in_range(routing@, num_experts, j);
            }
        }
        let pos: u32 = cursors[x];
        cursors[x] = pos + 1;
        sorted_tokens[pos as usize] = (s / 9) as u16;
        sorted_weights[pos as usize] = weight_of(routing, s);
        s = s + 1;
    }
    (sorted_tokens, sorted_weights, ranges)
}

/// The routing with the shared expert under a number of its own, behind those
/// of the `num_experts` routed ones.
pub open spec fn shared_apart(routing: Seq<RoutingOutput>, num_experts: u32) -> Seq<RoutingOutput> {
    Seq::new(
        routing.len(),
        |t: int| RoutingOutput { shared_id: num_experts as u16, ..routing[t] },
    )
}

/// The routing with the shared expert under a number of its own, behind those
/// of the `num_experts` routed ones.
pub fn set_shared_apart(routing: &[RoutingOutput], num_experts: u32) -> (r: Vec<RoutingOutput>)
    requires
        num_experts <= u16::MAX,
    ensures
        r@ == shared_apart(routing@, num_experts),
{
    let mut out: Vec<RoutingOutput> = Vec::new();
    let mut t: usize = 0;
    while t < routing.len()
        invariant
            t <= routing@.len(),
            num_experts <= u16::MAX,
            out@ == shared_apart(routing@, num_experts).take(t as int),
        decreases routing.len() - t,
    {
        let r: RoutingOutput = RoutingOutput {
            routed: routing[t].routed,
            weights: routing[t].weights,
            shared_id: num_experts as u16,
        };
        out.push(r);
        t = t + 1;
        assert(out@ =~= shared_apart(routing@, num_experts).take(t as int));
    }
    assert(out@ =~= shared_apart(routing@, num_experts));
    out
}

/// The experts that a token is routed to are there.
pub open spec fn routed_exist(r: RoutingOutput, num_experts: u32) -> bool {
    forall|i: int| 0 <= i < 8 ==> (#[trigger] r.routed[i]) < num_experts
}

/// A token is routed to eight different experts.
pub open spec fn routed_differ(r: RoutingOutput) -> bool {
    forall|i: int, j: int| 0 <= i < j < 8 ==> #[trigger] r.routed[i] != #[trigger] r.routed[j]
}

/// A token is routed to expert `e`.
pub open spec fn goes_to(r: RoutingOutput, e: int) -> bool {
    exists|i: int| 0 <= i < 8 && #[trigger] r.routed[i] == e
}

/// How many of the first `k` tokens are routed to expert `e`.
pub open spec fn tokens_to(routing: Seq<RoutingOutput>, k: nat, e: int) -> nat
    decreases k,
{
    if k == 0 {
        0
    } else {
        tokens_to(routing, (k - 1) as nat, e) + if goes_to(routing[k - 1], e) {
            1nat
        } else {
            0
        }
    }
}

/// With the shared expert apart, every slot has a number up to that of the
/// shared expert.
pub proof fn lemma_apart_exist(routing: Seq<RoutingOutput>, num_experts: u32)
    requires
        num_experts <= u16::MAX,
        forall|t: int| 0 <= t < routing.len() ==> routed_exist(#[trigger] routing[t], num_experts),
    ensures
        slot_count(shared_apart(routing, num_experts)) == slot_count(routing),
        experts_exist(shared_apart(routing, num_experts), (num_experts + 1) as u32),
{
    let apart = shared_apart(routing, num_experts);
    assert forall|s: int| 0 <= s < slot_count(apart) implies (#[trigger] slot_expert(apart, s))
        < num_experts + 1 by {
        assert(routed_exist(routing[s / 9], num_experts));
        if s % 9 < 8 {
            assert(apart[s / 9].routed[s % 9] == routing[s / 9].routed[s % 9]);
        }
    }
}

/// With the shared expert apart, it has one slot for each token, and an expert
/// has a slot exactly when a token is routed to it: one for each such token,
/// where tokens are routed to different experts.
pub proof fn lemma_apart_counts(
    routing: Seq<RoutingOutput>,
    num_experts: u32,
    k: nat,
    e: int,
)
    requires
        num_experts <= u16::MAX,
        k <= routing.len(),
        forall|t: int| 0 <= t < routing.len() ==> routed_exist(#[trigger] routing[t], num_experts),
        0 <= e < num_experts,
    ensures
        ({
            let apart = shared_apart(routing, num_experts);
            &&& count(apart, 9 * k, num_experts as int) == k
            &&& count(apart, 9 * k, e) > 0 <==> tokens_to(routing, k, e) > 0
            &&& (forall|t: int| 0 <= t < routing.len() ==> routed_differ(#[trigger] routing[t]))
                ==> count(apart, 9 * k, e) == tokens_to(routing, k, e)
        }),
    decreases k,
{
    let apart = shared_apart(routing, num_experts);
    if k > 0 {
        let t = k - 1;
        lemma_apart_counts(routing, num_experts, t as nat, e);
        let r = routing[t];
        assert(routed_exist(r, num_experts));
        assert(apart[t].routed == r.routed && apart[t].shared_id == num_experts);
        assert forall|i: int| 0 <= i < 9 implies #[trigger] slot_expert(apart, 9 * t + i) == (if i
            < 8 {
            r.routed[i]
        } else {
            num_experts as u16
        }) by {
            assert((9 * t + i) / 9 == t && (9 * t + i) % 9 == i);
        }
        lemma_nine(apart, t, num_experts as int);
        lemma_nine(apart, t, e);
        lemma_eight(r, e);
    }
}

/// One if slot `s` goes to expert `e`.
spec fn hit(routing: Seq<RoutingOutput>, s: int, e: int) -> nat {
    if slot_expert(routing, s) == e {
        1
    } else {
        0
    }
}

/// The nine slots of token `t` are counted one by one.
proof fn lemma_nine(routing: Seq<RoutingOutput>, t: int, e: int)
    requires
        t >= 0,
    ensures
        count(routing, (9 * t + 9) as nat, e) == count(routing, (9 * t) as nat, e) + hit(
            routing,
            9 * t + 0,
            e,
        ) + hit(routing, 9 * t + 1, e) + hit(routing, 9 * t + 2, e) + hit(routing, 9 * t + 3, e)
            + hit(routing, 9 * t + 4, e) + hit(routing, 9 * t + 5, e) + hit(routing, 9 * t + 6, e)
            + hit(routing, 9 * t + 7, e) + hit(routing, 9 * t + 8, e),
{
    reveal_with_fuel(count, 10);
}

/// A token is routed to an expert when one of its eight is that one.
proof fn lemma_eight(r: RoutingOutput, e: int)
    ensures
        goes_to(r, e) <==> r.routed[0] == e || r.routed[1] == e || r.routed[2] == e || r.routed[3]
            == e || r.routed[4] == e || r.routed[5] == e || r.routed[6] == e || r.routed[7] == e,
{
}

/// Every slot number of an expert, counted from zero, belongs to a slot.
proof fn lemma_slot_of(routing: Seq<RoutingOutput>, n: nat, x: int, j: int) -> (s: int)
    requires
        0 <= j < count(routing, n, x),
    ensures
        0 <= s < n,
        slot_expert(routing, s) == x,
        count(routing, s as nat, x) == j,
    decreases n,
{
    if j < count(routing, (n - 1) as nat, x) {
        lemma_slot_of(routing, (n - 1) as nat, x, j)
    } else {
        n - 1
    }
}

/// Token `t` is routed to expert `e` with this weight.
pub open spec fn is_routed(routing: Seq<RoutingOutput>, t: int, e: int, weight: u32) -> bool {
    exists|i: int|
        0 <= i < 8 && #[trigger] routing[t].routed[i] == e && routing[t].weights[i] == weight
}

/// In batches with the shared expert apart, the entries of an expert, from where
/// its range starts, are the tokens that are routed to it, in order, each with
/// its weight for that expert; those of the shared expert are all tokens, with
/// weight one.
pub proof fn law_batches_list_tokens(
    routing: Seq<RoutingOutput>,
    num_experts: u32,
    tokens: Seq<u16>,
    weights: Seq<u32>,
    e: int,
    j: int,
)
    requires
        num_experts <= u16::MAX,
        routing.len() <= 0x1_0000,
        forall|t: int| 0 <= t < routing.len() ==> routed_exist(#[trigger] routing[t], num_experts),
        is_batched(shared_apart(routing, num_experts), tokens, weights),
        0 <= e <= num_experts,
        0 <= j < count(shared_apart(routing, num_experts), slot_count(routing) as nat, e),
    ensures
        ({
            let first = below(
                shared_apart(routing, num_experts),
                slot_count(routing) as nat,
                e as nat,
            ) as int;
            &&& first + j < tokens.len() && tokens.len() == weights.len()
            &&& tokens[first + j] < routing.len()
            &&& e < num_experts ==> is_routed(
                routing,
                tokens[first + j] as int,
                e,
                weights[first + j],
            )
            &&& e == num_experts ==> tokens[first + j] == j && weights[first + j] == 0x3f80_0000
            &&& e < num_experts && j > 0 && (forall|t: int|
                0 <= t < routing.len() ==> routed_differ(#[trigger] routing[t])) ==> tokens[first
                + j - 1] < tokens[first + j]
        }),
{
    let apart = shared_apart(routing, num_experts);
    let all = slot_count(routing) as nat;
    lemma_apart_exist(routing, num_experts);
    let s = lemma_slot_of(apart, all, e, j);
    let t = s / 9;
    assert(place(apart, s) == below(apart, all, e as nat) + j);
    law_place_in_range(apart, (num_experts + 1) as u32, s);
    assert(apart[t].routed == routing[t].routed && apart[t].weights == routing[t].weights);
    assert(routed_exist(routing[t], num_experts));
    if s % 9 < 8 {
        assert(routing[t].routed[s % 9] == slot_expert(apart, s));
    }
    if e == num_experts {
        assert(s % 9 == 8);
        if num_experts > 0 {
            lemma_apart_counts(routing, num_experts, t as nat, 0);
        } else {
            assert(routing[t].routed[0] < num_experts);
        }
        lemma_last_slot(apart, t, num_experts as int);
    } else if j > 0 && (forall|u: int|
        0 <= u < routing.len() ==> routed_differ(#[trigger] routing[u])) {
        let r = lemma_slot_of(apart, all, e, j - 1);
        assert(place(apart, r) == below(apart, all, e as nat) + j - 1);
        law_place_in_range(apart, (num_experts + 1) as u32, r);
        if r >= s {
            lemma_count_grows(apart, s as nat, r as nat, e);
        }
        let u = r / 9;
        assert(apart[u].routed == routing[u].routed);
        if u == t {
            assert(routed_differ(routing[t]));
            assert(routing[t].routed[r % 9] == routing[t].routed[s % 9]);
        }
    }
}

/// The slots of a token before its last one are those of its routed experts.
proof fn lemma_last_slot(apart: Seq<RoutingOutput>, t: int, x: int)
    requires
        0 <= t < apart.len(),
        apart[t].shared_id == x,
        forall|i: int| 0 <= i < 8 ==> (#[trigger] apart[t].routed[i]) < x,
    ensures
        count(apart, (9 * t + 8) as nat, x) == count(apart, (9 * t) as nat, x),
{
    lemma_nine(apart, t, x);
    assert forall|i: int| 0 <= i < 8 implies #[trigger] slot_expert(apart, 9 * t + i) != x by {
        assert((9 * t + i) / 9 == t && (9 * t + i) % 9 == i);
        assert(apart[t].routed[i] < x);
    }
    assert(hit(apart, 9 * t + 0, x) == 0);
    assert(count(apart, (9 * t + 9) as nat, x) == count(apart, (9 * t + 8) as nat, x) + hit(
        apart,
        9 * t + 8,
        x,
    ));
}

/// The most experts that a token is routed among.
pub const MAX_ROUTED: usize = 256;

/// The probabilities that count for one token.
pub open spec fn considered(probs: Seq<u32>) -> Seq<u32> {
    if probs.len() <= MAX_ROUTED {
        probs
    } else {
        probs.take(MAX_ROUTED as int)
    }
}

/// `r` routes to the eight most likely experts, the most likely first and of
/// equal ones the first, with their probabilities as weights.
pub open spec fn is_top_eight(probs: Seq<u32>, r: RoutingOutput) -> bool {
    &&& r.shared_id == 0
    &&& forall|i: int|
        0 <= i < 8 ==> (#[trigger] r.routed[i]) < probs.len() && sampling::outranking(
            probs,
            r.routed[i] as int,
            probs.len(),
        ) == i
    &&& forall|i: int| 0 <= i < 8 ==> #[trigger] r.weights[i] == probs[r.routed[i] as int]
}

/// The experts of a token, from their probabilities.
pub fn route_single(probs: &[u32]) -> (r: RoutingOutput)
    requires
        probs@.len() >= 8,
        sampling::all_numbers(probs@),
    ensures
        is_top_eight(considered(probs@), r),
{
    let counted: &[u32] = if probs.len() <= MAX_ROUTED {
        probs
    } else {
        vstd::slice::slice_subrange(probs, 0, MAX_ROUTED)
    };
    assert(counted@ =~= considered(probs@));
    let order: Vec<usize> = sampling::descending_order(counted);
    let mut routed: [u16; 8] = [0u16; 8];
    let mut weights: [u32; 8] = [0u32; 8];
    let mut i: usize = 0;
    while i < 8
        invariant
            i <= 8,
            8 <= counted@.len() <= MAX_ROUTED,
            sampling::is_descending(counted@, order@),
            crate::sort::is_stable_order(sampling::descending_keys(counted@), order@),
            forall|j: int|
                0 <= j < i ==> (#[trigger] routed[j]) < counted@.len() && sampling::outranking(
                    counted@,
                    routed[j] as int,
                    counted@.len(),
                ) == j,
            forall|j: int| 0 <= j < i ==> #[trigger] weights[j] == counted@[routed[j] as int],
        decreases 8 - i,
    {
        let e: usize = order[i];
        proof {
            sampling::law_order_counts(counted@, order@, i as int);
        }
        routed[i] = e as u16;
        weights[i] = counted[e];
        i = i + 1;
    }
    RoutingOutput { routed, weights, shared_id: 0 }
}

/// The probabilities of token `t`.
pub open spec fn token_probs(probs: Seq<u32>, num_experts: u32, t: int) -> Seq<u32> {
    probs.subrange(t * num_experts, t * num_experts + num_experts)
}

/// The experts of all tokens, from the probabilities of one token after another.
pub fn route_cpu(probs: &[u32], num_experts: u32, num_tokens: u32) -> (r: Vec<RoutingOutput>)
    requires
        num_tokens > 0 ==> num_experts >= 8,
        num_tokens * num_experts <= probs@.len(),
        sampling::all_numbers(probs@),
    ensures
        r@.len() == num_tokens,
        forall|t: int|
            0 <= t < num_tokens ==> is_top_eight(
                considered(token_probs(probs@, num_experts, t)),
                #[trigger] r@[t],
            ),
{
    assert(probs.len() == probs@.len());
    let n: usize = num_experts as usize;
    let mut out: Vec<RoutingOutput> = Vec::new();
    let mut t: usize = 0;
    while t < num_tokens as usize
        invariant
            t <= num_tokens,
            n == num_experts,
            num_tokens > 0 ==> num_experts >= 8,
            num_tokens * num_experts <= probs@.len() <= usize::MAX,
            sampling::all_numbers(probs@),
            out@.len() == t,
            forall|k: int|
                0 <= k < t ==> is_top_eight(
                    considered(token_probs(probs@, num_experts, k)),
                    #[trigger] out@[k],
                ),
        decreases num_tokens - t,
    {
        assert(t * n + n <= num_tokens * num_experts) by (nonlinear_arith)
            requires
                t + 1 <= num_tokens,
                n == num_experts,
        ;
        assert(0 <= t * n) by (nonlinear_arith);
        let base: usize = t * n;
        let part: &[u32] = vstd::slice::slice_subrange(probs, base, base + n);
        assert(part@ == token_probs(probs@, num_experts, t as int));
        out.push(route_single(part));
        t = t + 1;
    }
    out
}

/// A token is routed to eight different experts, and none that is left out is
/// more likely than one of them.
pub proof fn law_routed_are_the_likeliest(probs: Seq<u32>, r: RoutingOutput, a: int, e: int)
    requires
        is_top_eight(probs, r),
        0 <= a < 8,
        0 <= e < probs.len(),
        forall|i: int| 0 <= i < 8 ==> #[trigger] r.routed[i] != e,
    ensures
        forall|i: int, j: int|
            0 <= i < j < 8 ==> #[trigger] r.routed[i] != #[trigger] r.routed[j],
        crate::util::rank(probs[e]) <= crate::util::rank(probs[r.routed[a] as int]),
{
    let n = probs.len();
    let x = r.routed[a] as int;
    assert(sampling::outranking(probs, x, n) == a);
    if sampling::outranks(probs, e, x) {
        sampling::lemma_outranking_grows_strictly(probs, e, x, n);
        let c = sampling::outranking(probs, e, n);
        let y = r.routed[c as int] as int;
        assert(sampling::outranking(probs, y, n) == c);
        if sampling::outranks(probs, e, y) {
            sampling::lemma_outranking_grows_strictly(probs, e, y, n);
        } else {
            sampling::lemma_outranking_grows_strictly(probs, y, e, n);
        }
    }
}

/// A token's experts come with their own probabilities, from the largest down;
/// the first 256 experts of its own row of the table are considered, and the
/// shared expert has number zero.
pub proof fn law_weights_are_probabilities(
    probs: Seq<u32>,
    num_experts: u32,
    t: int,
    r: RoutingOutput,
    i: int,
    j: int,
)
    requires
        8 <= num_experts,
        0 <= t,
        t * num_experts + num_experts <= probs.len(),
        is_top_eight(considered(token_probs(probs, num_experts, t)), r),
        0 <= i <= j < 8,
    ensures
        r.routed[i] < num_experts,
        r.routed[i] < 256,
        r.weights[i] == probs[t * num_experts + r.routed[i]],
        crate::util::rank(r.weights[j]) <= crate::util::rank(r.weights[i]),
        r.shared_id == 0,
{
    let row = token_probs(probs, num_experts, t);
    let c = considered(row);
    assert(0 <= t * num_experts) by (nonlinear_arith)
        requires
            0 <= t,
    ;
    let a = r.routed[i] as int;
    let b = r.routed[j] as int;
    assert(a < c.len() && sampling::outranking(c, a, c.len()) == i);
    assert(b < c.len() && sampling::outranking(c, b, c.len()) == j);
    assert(r.weights[i] == c[a] && r.weights[j] == c[b]);
    if sampling::outranks(c, b, a) {
        sampling::lemma_outranking_grows_strictly(c, b, a, c.len());
    }
    assert(c[a] == row[a]);
    assert(row[a] == probs[t * num_experts + a]);
}

} // verus!
