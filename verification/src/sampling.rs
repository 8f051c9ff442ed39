//! Choice of the next token.

use crate::sort;
use crate::util;
use std::collections::HashMap;
use vstd::prelude::*;

verus! {

/// How tokens are chosen. The temperature is a single-precision bit pattern.
#[derive(Clone, Copy, Debug, PartialEq, Eq, Structural)]
pub struct SamplingParams {
    pub temperature: u32,
    pub top_k: u32,
    pub max_tokens: u32,
}

impl Default for SamplingParams {
    fn default() -> (r: Self)
        ensures
            r == (SamplingParams { temperature: 0x3f80_0000, top_k: 0, max_tokens: 4096 }),
    {
        SamplingParams { temperature: 0x3f80_0000, top_k: 0, max_tokens: 4096 }
    }
}

impl SamplingParams {
    /// A temperature of zero takes the most likely token.
    pub fn is_greedy(&self) -> (r: bool)
        ensures
            r == (!util::is_nan(self.temperature) && util::rank(self.temperature) == 0),
    {
        self.temperature % 0x8000_0000 == 0
    }
}

/// What has been generated, and the state of the random numbers.
pub struct SamplingContext {
    pub rng_state: u64,
    pub past_tokens: Vec<u32>,
    pub token_frequencies: HashMap<u32, u32>,
}

/// How often `t` occurs.
pub open spec fn occurrences(tokens: Seq<u32>, t: u32) -> nat
    decreases tokens.len(),
{
    if tokens.len() == 0 {
        0
    } else {
        occurrences(tokens.drop_last(), t) + if tokens.last() == t {
            1nat
        } else {
            0
        }
    }
}

impl SamplingContext {
    /// The frequencies count the past tokens.
    pub open spec fn well_formed(&self) -> bool {
        &&& forall|t: u32|
            self.token_frequencies@.contains_key(t) <==> #[trigger] occurrences(
                self.past_tokens@,
                t,
            ) > 0
        &&& forall|t: u32| #[trigger]
            self.token_frequencies@.contains_key(t) ==> self.token_frequencies@[t] == occurrences(
                self.past_tokens@,
                t,
            )
    }

    /// Takes note of a generated token.
    pub fn record(&mut self, token: u32)
        requires
            old(self).well_formed(),
            occurrences(old(self).past_tokens@, token) < u32::MAX,
        ensures
            final(self).well_formed(),
            final(self).rng_state == old(self).rng_state,
            final(self).past_tokens@ == old(self).past_tokens@.push(token),
            final(self).token_frequencies@ == old(self).token_frequencies@.insert(
                token,
                (occurrences(old(self).past_tokens@, token) + 1) as u32,
            ),
    {
        broadcast use vstd::std_specs::hash::group_hash_axioms;

        let ghost past = self.past_tokens@;
        let seen: u32 = match self.token_frequencies.get(&token) {
            Some(n) => *n,
            None => 0,
        };
        assert(seen == occurrences(past, token));
        self.past_tokens.push(token);
        self.token_frequencies.insert(token, seen + 1);
        proof {
            assert(self.past_tokens@.drop_last() =~= past);
            assert forall|t: u32|
                occurrences(self.past_tokens@, t) == occurrences(past, t) + if t == token {
                    1nat
                } else {
                    0
                } by {}
        }
    }

    /// Forgets what was generated; the random numbers go on.
    pub fn reset(&mut self)
        ensures
            final(self).well_formed(),
            final(self).rng_state == old(self).rng_state,
            final(self).past_tokens@ == Seq::<u32>::empty(),
            final(self).token_frequencies@ == Map::<u32, u32>::empty(),
    {
        broadcast use vstd::std_specs::hash::group_hash_axioms;

        self.past_tokens.clear();
        self.token_frequencies.clear();
    }
}

impl Default for SamplingContext {
    fn default() -> (r: Self)
        ensures
            r.well_formed(),
            r.rng_state == 0,
            r.past_tokens@ == Seq::<u32>::empty(),
            r.token_frequencies@ == Map::<u32, u32>::empty(),
    {
        broadcast use vstd::std_specs::hash::group_hash_axioms;

        SamplingContext {
            rng_state: 0,
            past_tokens: Vec::new(),
            token_frequencies: HashMap::new(),
        }
    }
}

/// One round of shifts and exclusive ors.
pub open spec fn scrambled(x: u64) -> u64 {
    let a = x ^ (x << 13);
    let b = a ^ (a >> 7);
    b ^ (b << 17)
}

/// The state behind `state`.
pub open spec fn next_state(state: u64) -> u64 {
    if state == u64::MAX {
        0
    } else {
        (state + 1) as u64
    }
}

/// The next random number of 53 bits. The state counts up, and its scrambled
/// bits give the number.
pub fn xorshift(state: &mut u64) -> (r: u64)
    ensures
        *final(state) == next_state(*old(state)),
        r == scrambled(next_state(*old(state))) >> 11,
        r < 0x20_0000_0000_0000,
{
    let s: u64 = state.wrapping_add(1);
    *state = s;
    let a: u64 = s ^ (s << 13);
    let b: u64 = a ^ (a >> 7);
    let c: u64 = b ^ (b << 17);
    assert(c >> 11 < 0x20_0000_0000_0000) by (bit_vector);
    c >> 11
}

/// The numbers can be compared with each other.
pub open spec fn all_numbers(s: Seq<u32>) -> bool {
    forall|i: int| 0 <= i < s.len() ==> !util::is_nan(#[trigger] s[i])
}

/// `best` is the last place of the largest number; zero when there is none.
pub open spec fn is_last_argmax(s: Seq<u32>, best: int) -> bool {
    if s.len() == 0 {
        best == 0
    } else {
        &&& 0 <= best < s.len()
        &&& forall|i: int| 0 <= i < s.len() ==> util::rank(#[trigger] s[i]) <= util::rank(s[best])
        &&& forall|i: int| best < i < s.len() ==> util::rank(#[trigger] s[i]) < util::rank(s[best])
    }
}

/// The most likely token; of several, the last.
pub fn argmax(logits: &[u32]) -> (best: u32)
    requires
        logits@.len() <= u32::MAX,
        all_numbers(logits@),
    ensures
        is_last_argmax(logits@, best as int),
{
    let mut best: u32 = 0;
    let mut i: usize = 0;
    while i < logits.len()
        invariant
            i <= logits@.len() <= u32::MAX,
            best <= i,
            i > 0 ==> best < i,
            i == 0 ==> best == 0,
            forall|j: int|
                0 <= j < i ==> util::rank(#[trigger] logits@[j]) <= util::rank(
                    logits@[best as int],
                ),
            forall|j: int|
                best < j < i ==> util::rank(#[trigger] logits@[j]) < util::rank(
                    logits@[best as int],
                ),
        decreases logits.len() - i,
    {
        if util::rank_of(logits[i]) >= util::rank_of(logits[best as usize]) {
            best = i as u32;
        }
        i = i + 1;
    }
    best
}

/// A key that puts larger numbers first.
pub open spec fn descending_key(bits: u32) -> u64 {
    (0x1_0000_0000 - util::rank(bits)) as u64
}

/// The keys of all numbers.
pub open spec fn descending_keys(s: Seq<u32>) -> Seq<u64> {
    Seq::new(s.len(), |i: int| descending_key(s[i]))
}

/// Item `i` comes before item `j` when the largest stand first, and of equal
/// ones the first.
pub open spec fn outranks(s: Seq<u32>, i: int, j: int) -> bool {
    util::rank(s[i]) > util::rank(s[j]) || (util::rank(s[i]) == util::rank(s[j]) && i < j)
}

/// `order` lists all places, the largest number first, equal numbers in their order.
pub open spec fn is_descending(s: Seq<u32>, order: Seq<usize>) -> bool {
    &&& order.len() == s.len()
    &&& forall|a: int| 0 <= a < order.len() ==> (#[trigger] order[a]) < s.len()
    &&& forall|a: int, b: int|
        0 <= a < b < order.len() ==> outranks(
            s,
            #[trigger] order[a] as int,
            #[trigger] order[b] as int,
        )
}

/// The places of the numbers, the largest first.
pub fn descending_order(s: &[u32]) -> (order: Vec<usize>)
    ensures
        is_descending(s@, order@),
        sort::is_stable_order(descending_keys(s@), order@),
{
    let mut keys: Vec<u64> = Vec::new();
    let mut i: usize = 0;
    while i < s.len()
        invariant
            i <= s@.len(),
            keys@ == descending_keys(s@).take(i as int),
        decreases s.len() - i,
    {
        keys.push((0x1_0000_0000 - util::rank_of(s[i])) as u64);
        i = i + 1;
        assert(keys@ =~= descending_keys(s@).take(i as int));
    }
    assert(keys@ =~= descending_keys(s@));
    let order: Vec<usize> = sort::stable_order(keys.as_slice());
    assert forall|a: int, b: int| 0 <= a < b < order@.len() implies outranks(
        s@,
        #[trigger] order@[a] as int,
        #[trigger] order@[b] as int,
    ) by {
        assert(sort::comes_before(descending_keys(s@), order@[a] as int, order@[b] as int));
    }
    order
}

/// How many of the numbers in places before `n` come before place `i`.
pub open spec fn outranking(s: Seq<u32>, i: int, n: nat) -> nat
    decreases n,
{
    if n == 0 {
        0
    } else {
        outranking(s, i, (n - 1) as nat) + if outranks(s, n - 1, i) {
            1nat
        } else {
            0
        }
    }
}

/// Place `i` is among the `k` largest.
pub open spec fn in_top(s: Seq<u32>, i: int, k: int) -> bool {
    outranking(s, i, s.len()) < k
}

/// The places before `i` in a descending order that are below `n`.
spec fn listed_below(order: Seq<usize>, a: nat, n: nat) -> nat
    decreases a,
{
    if a == 0 {
        0
    } else {
        listed_below(order, (a - 1) as nat, n) + if order[a - 1] < n {
            1nat
        } else {
            0
        }
    }
}

proof fn lemma_listed_step(order: Seq<usize>, a: nat, n: nat)
    requires
        a <= order.len(),
        forall|x: int, y: int| 0 <= x < y < order.len() ==> order[x] != order[y],
    ensures
        listed_below(order, a, n + 1) == listed_below(order, a, n) + if exists|x: int|
            0 <= x < a && order[x] == n {
            1nat
        } else {
            0
        },
    decreases a,
{
    if a > 0 {
        lemma_listed_step(order, (a - 1) as nat, n);
        if order[a - 1] == n {
            assert(!(exists|x: int| 0 <= x < a - 1 && order[x] == n));
        } else if exists|x: int| 0 <= x < a && order[x] == n {
            let x = choose|x: int| 0 <= x < a && order[x] == n;
            assert(0 <= x < a - 1 && order[x] == n);
        }
    }
}

proof fn lemma_listed_ends(order: Seq<usize>, a: nat, n: nat)
    requires
        a <= order.len(),
    ensures
        n == 0 ==> listed_below(order, a, n) == 0,
        (forall|x: int| 0 <= x < order.len() ==> order[x] < n) ==> listed_below(order, a, n) == a,
    decreases a,
{
    if a > 0 {
        lemma_listed_ends(order, (a - 1) as nat, n);
    }
}

proof fn lemma_outranking_listed(s: Seq<u32>, order: Seq<usize>, a: int, n: nat)
    requires
        is_descending(s, order),
        sort::is_stable_order(descending_keys(s), order),
        0 <= a < order.len(),
        n <= s.len(),
    ensures
        outranking(s, order[a] as int, n) == listed_below(order, a as nat, n),
    decreases n,
{
    if n == 0 {
        lemma_listed_ends(order, a as nat, 0);
    } else {
        let i = n - 1;
        lemma_outranking_listed(s, order, a, i as nat);
        assert forall|x: int, y: int| 0 <= x < y < order.len() implies order[x] != order[y] by {
            sort::law_order_repeats_nothing(descending_keys(s), order, x, y);
        }
        lemma_listed_step(order, a as nat, i as nat);
        sort::law_order_omits_nothing(descending_keys(s), order, i);
        let b = choose|b: int| 0 <= b < order.len() && #[trigger] order[b] == i;
        if b < a {
            assert(outranks(s, order[b] as int, order[a] as int));
            assert(0 <= b < a && order[b] == i);
        } else {
            assert(!(exists|x: int| 0 <= x < a && order[x] == i));
            if a < b {
                assert(outranks(s, order[a] as int, order[b] as int));
            }
        }
    }
}

/// In a descending order, the place of an item is the number of items that
/// come before it.
pub proof fn law_order_counts(s: Seq<u32>, order: Seq<usize>, a: int)
    requires
        is_descending(s, order),
        sort::is_stable_order(descending_keys(s), order),
        0 <= a < order.len(),
    ensures
        outranking(s, order[a] as int, s.len()) == a,
{
    lemma_outranking_listed(s, order, a, s.len());
    lemma_listed_ends(order, a as nat, s.len());
}

/// The numbers with all but the `k` largest put to minus infinity.
pub open spec fn top_only(s: Seq<u32>, k: int) -> Seq<u32> {
    Seq::new(
        s.len(),
        |i: int|
            if in_top(s, i, k) {
                s[i]
            } else {
                util::NEG_INFINITY
            },
    )
}

/// How many of the numbers in places before `n` are among the `k` largest.
pub open spec fn kept(s: Seq<u32>, k: int, n: nat) -> nat
    decreases n,
{
    if n == 0 {
        0
    } else {
        kept(s, k, (n - 1) as nat) + if in_top(s, n - 1, k) {
            1nat
        } else {
            0
        }
    }
}

proof fn lemma_kept_listed(s: Seq<u32>, order: Seq<usize>, k: int, a: nat, n: nat)
    requires
        is_descending(s, order),
        sort::is_stable_order(descending_keys(s), order),
        n <= s.len(),
        a <= s.len(),
        a == k || (a == s.len() && k >= a),
    ensures
        kept(s, k, n) == listed_below(order, a, n),
    decreases n,
{
    if n == 0 {
        lemma_listed_ends(order, a, 0);
    } else {
        let i = n - 1;
        lemma_kept_listed(s, order, k, a, i as nat);
        assert forall|x: int, y: int| 0 <= x < y < order.len() implies order[x] != order[y] by {
            sort::law_order_repeats_nothing(descending_keys(s), order, x, y);
        }
        lemma_listed_step(order, a, i as nat);
        sort::law_order_omits_nothing(descending_keys(s), order, i);
        let b = choose|b: int| 0 <= b < order.len() && #[trigger] order[b] == i;
        law_order_counts(s, order, b);
        if b < a {
            assert(0 <= b < a && order[b] == i);
        } else {
            assert(!(exists|x: int| 0 <= x < a && order[x] == i));
        }
    }
}

/// Keeps the `top_k` largest logits and puts the others to minus infinity; with
/// a `top_k` of zero all stay.
pub fn keep_top(logits: &mut [u32], top_k: u32)
    requires
        all_numbers(old(logits)@),
    ensures
        final(logits)@ == if top_k == 0 {
            old(logits)@
        } else {
            top_only(old(logits)@, top_k as int)
        },
        kept(old(logits)@, top_k as int, old(logits)@.len()) == if top_k < old(logits)@.len() {
            top_k as int
        } else {
            old(logits)@.len() as int
        },
{
    let ghost start = logits@;
    let order: Vec<usize> = descending_order(logits);
    proof {
        let a = if top_k < start.len() {
            top_k as nat
        } else {
            start.len()
        };
        lemma_kept_listed(start, order@, top_k as int, a, start.len());
        lemma_listed_ends(order@, a, start.len());
    }
    if top_k == 0 {
        return;
    }
    let mut a: usize = 0;
    let n: usize = order.len();
    while a < n
        invariant
            a <= n,
            n == order@.len(),
            n == start.len(),
            logits@.len() == start.len(),
            is_descending(start, order@),
            sort::is_stable_order(descending_keys(start), order@),
            forall|b: int|
                0 <= b < a ==> logits@[#[trigger] order@[b] as int] == top_only(
                    start,
                    top_k as int,
                )[order@[b] as int],
            forall|b: int|
                a <= b < n ==> logits@[#[trigger] order@[b] as int] == start[order@[b] as int],
        decreases n - a,
    {
        let i: usize = order[a];
        proof {
            law_order_counts(start, order@, a as int);
        }
        let ghost before = logits@;
        if a >= top_k as usize {
            logits[i] = util::NEG_INFINITY;
        }
        proof {
            assert forall|b: int| 0 <= b < n && b != a implies #[trigger] order@[b] != i by {
                if b < a {
                    sort::law_order_repeats_nothing(
                        descending_keys(start),
                        order@,
                        b,
                        a as int,
                    );
                } else {
                    sort::law_order_repeats_nothing(
                        descending_keys(start),
                        order@,
                        a as int,
                        b,
                    );
                }
            }
        }
        a = a + 1;
    }
    proof {
        assert forall|i: int| 0 <= i < start.len() implies logits@[i] == top_only(
            start,
            top_k as int,
        )[i] by {
            sort::law_order_omits_nothing(descending_keys(start), order@, i);
            let b = choose|b: int| 0 <= b < order@.len() && #[trigger] order@[b] == i;
            assert(logits@[order@[b] as int] == top_only(start, top_k as int)[order@[b] as int]);
        }
        assert(logits@ =~= top_only(start, top_k as int));
    }
}

/// The first place whose running total is above `r`; zero when there is none.
pub open spec fn is_draw(totals: Seq<u32>, r: u32, i: int) -> bool {
    if forall|j: int| 0 <= j < totals.len() ==> !util::greater(#[trigger] totals[j], r) {
        i == 0
    } else {
        &&& 0 <= i < totals.len()
        &&& util::greater(totals[i], r)
        &&& forall|j: int| 0 <= j < i ==> !util::greater(#[trigger] totals[j], r)
    }
}

/// The token that the random number `r` falls on, given the running totals of
/// the probabilities.
pub fn draw(totals: &[u32], r: u32) -> (i: u32)
    requires
        totals@.len() <= u32::MAX,
    ensures
        is_draw(totals@, r, i as int),
{
    let mut i: usize = 0;
    while i < totals.len()
        invariant
            i <= totals@.len() <= u32::MAX,
            forall|j: int| 0 <= j < i ==> !util::greater(#[trigger] totals@[j], r),
        decreases totals.len() - i,
    {
        if util::is_greater(totals[i], r) {
            return i as u32;
        }
        i = i + 1;
    }
    0
}

/// Every number that is among the largest comes before every one that is not.
pub proof fn law_top_keeps_largest(s: Seq<u32>, k: int, i: int, j: int)
    requires
        0 <= i < s.len(),
        0 <= j < s.len(),
        in_top(s, i, k),
        !in_top(s, j, k),
    ensures
        util::rank(s[i]) >= util::rank(s[j]),
        outranks(s, i, j),
{
    if outranks(s, j, i) {
        lemma_outranking_grows_strictly(s, j, i, s.len());
    }
}

/// What comes before another has fewer before it.
pub proof fn lemma_outranking_grows_strictly(s: Seq<u32>, j: int, i: int, n: nat)
    requires
        outranks(s, j, i),
        0 <= j,
    ensures
        outranking(s, j, n) <= outranking(s, i, n),
        j < n ==> outranking(s, j, n) < outranking(s, i, n),
    decreases n,
{
    if n > 0 {
        lemma_outranking_grows_strictly(s, j, i, (n - 1) as nat);
    }
}

/// The most likely token is as likely as any, and of those that are as likely as
/// it the last.
pub proof fn law_argmax_is_last(s: Seq<u32>, best: int, i: int)
    requires
        is_last_argmax(s, best),
        0 <= i < s.len(),
    ensures
        0 <= best < s.len(),
        util::rank(s[i]) <= util::rank(s[best]),
        s[i] == s[best] ==> i <= best,
{
}

/// Of the numbers, those that fewer than `k` others precede from the largest down
/// stay as they are, and the others become negative infinity.
pub proof fn law_top_is_kept(s: Seq<u32>, k: int, i: int)
    requires
        0 <= i < s.len(),
    ensures
        top_only(s, k).len() == s.len(),
        outranking(s, i, s.len()) < k ==> top_only(s, k)[i] == s[i],
        outranking(s, i, s.len()) >= k ==> top_only(s, k)[i] == 0xff80_0000,
{
}

/// The drawn place is the first whose total exceeds the drawn number, and the
/// first of all where no total does.
pub proof fn law_draw_is_the_first_above(totals: Seq<u32>, r: u32, i: int, j: int)
    requires
        is_draw(totals, r, i),
        0 <= j < totals.len(),
        util::greater(totals[j], r),
    ensures
        0 <= i <= j,
        util::greater(totals[i], r),
{
}

/// Where no total exceeds the drawn number, the first place is drawn.
pub proof fn law_draw_falls_back(totals: Seq<u32>, r: u32, i: int)
    requires
        is_draw(totals, r, i),
        forall|j: int| 0 <= j < totals.len() ==> !util::greater(#[trigger] totals[j], r),
    ensures
        i == 0,
{
}

/// As many as there are states.
pub open spec fn state_count() -> int {
    0x1_0000_0000_0000_0000
}

/// The state counts up and begins again at zero, and its number comes of it by
/// three foldings: of the product with 8192, of the quotient by 128, and of the
/// product with 131072.
pub proof fn law_numbers_come_of_the_state(x: u64)
    ensures
        next_state(x) == (x + 1) % state_count(),
        ({
            let a = x ^ (x * 8192 % state_count()) as u64;
            let b = a ^ (a / 128) as u64;
            scrambled(x) == b ^ (b * 131072 % state_count()) as u64
        }),
{
    let a = x ^ (x << 13);
    let b = a ^ (a >> 7);
    assert(x << 13 == x * 8192 % 0x1_0000_0000_0000_0000int) by (bit_vector);
    assert(a >> 7 == a / 128) by (bit_vector);
    assert(b << 17 == b * 131072 % 0x1_0000_0000_0000_0000int) by (bit_vector);
}

} // verus!
