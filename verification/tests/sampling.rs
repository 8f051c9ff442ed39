use moe_680m::router::{build_expert_batches, route_cpu, route_single, RoutingOutput};
use moe_680m::sampling::{
    argmax, descending_order, draw, keep_top, xorshift, SamplingContext, SamplingParams,
};

fn bits(v: &[f32]) -> Vec<u32> {
    v.iter().map(|x| x.to_bits()).collect()
}

#[test]
fn default_parameters() {
    let p = SamplingParams::default();
    assert_eq!(f32::from_bits(p.temperature), 1.0);
    assert_eq!(p.top_k, 0);
    assert_eq!(p.max_tokens, 4096);
    assert!(!p.is_greedy());
    assert!(SamplingParams { temperature: 0, ..p }.is_greedy());
    assert!(SamplingParams { temperature: (-0.0f32).to_bits(), ..p }.is_greedy());
    assert!(!SamplingParams { temperature: f32::NAN.to_bits(), ..p }.is_greedy());
}

#[test]
fn record_counts_tokens() {
    let mut c = SamplingContext::default();
    c.record(5);
    c.record(7);
    c.record(5);
    assert_eq!(c.past_tokens, vec![5, 7, 5]);
    assert_eq!(c.token_frequencies.get(&5), Some(&2));
    assert_eq!(c.token_frequencies.get(&7), Some(&1));
    assert_eq!(c.token_frequencies.get(&6), None);
}

#[test]
fn reset_forgets_tokens_but_not_the_random_state() {
    let mut c = SamplingContext::default();
    c.rng_state = 9;
    c.record(5);
    c.reset();
    assert!(c.past_tokens.is_empty());
    assert!(c.token_frequencies.is_empty());
    assert_eq!(c.rng_state, 9);
}

#[test]
fn random_numbers() {
    let mut state = 0u64;
    let mut x = 1u64;
    x ^= x << 13;
    x ^= x >> 7;
    x ^= x << 17;
    assert_eq!(xorshift(&mut state), x >> 11);
    assert_eq!(state, 1);
    let mut last = u64::MAX;
    assert_eq!(xorshift(&mut last), 0);
    assert_eq!(last, 0);
}

#[test]
fn greedy_takes_the_last_largest() {
    assert_eq!(argmax(&bits(&[1.0, 3.0, 2.0, 3.0])), 3);
    assert_eq!(argmax(&bits(&[0.0, -0.0])), 1);
    assert_eq!(argmax(&[]), 0);
}

#[test]
fn top_k_cuts_the_rest() {
    let mut v = bits(&[1.0, 4.0, 2.0, 4.0, -1.0]);
    keep_top(&mut v, 2);
    let inf = f32::NEG_INFINITY;
    assert_eq!(v, bits(&[inf, 4.0, inf, 4.0, inf]));
    let mut w = bits(&[1.0, 4.0]);
    keep_top(&mut w, 0);
    assert_eq!(w, bits(&[1.0, 4.0]));
    keep_top(&mut w, 5);
    assert_eq!(w, bits(&[1.0, 4.0]));
    let mut ties = bits(&[2.0, 2.0, 2.0]);
    keep_top(&mut ties, 2);
    assert_eq!(ties, bits(&[2.0, 2.0, inf]));
}

#[test]
fn descending_order_of_numbers() {
    assert_eq!(descending_order(&bits(&[0.5, -3.0, 7.0, 0.5])), vec![2, 0, 3, 1]);
}

#[test]
fn draw_finds_the_first_total_above() {
    let totals = bits(&[0.25, 0.5, 1.0]);
    assert_eq!(draw(&totals, 0.0f32.to_bits()), 0);
    assert_eq!(draw(&totals, 0.25f32.to_bits()), 1);
    assert_eq!(draw(&totals, 0.9f32.to_bits()), 2);
    assert_eq!(draw(&totals, 1.0f32.to_bits()), 0);
}

#[test]
fn route_takes_the_eight_likeliest() {
    let mut p = vec![0.01f32; 12];
    for (i, e) in [3usize, 1, 11, 0, 5, 7, 8, 10].iter().enumerate() {
        p[*e] = 0.9 - i as f32 * 0.05;
    }
    let r = route_single(&bits(&p));
    assert_eq!(r.routed, [3, 1, 11, 0, 5, 7, 8, 10]);
    assert_eq!(r.weights[0], 0.9f32.to_bits());
    assert_eq!(r.weights[7], p[10].to_bits());
    assert_eq!(r.shared_id, 0);
}

#[test]
fn route_looks_at_256_experts() {
    let mut p = vec![0.0f32; 300];
    p[299] = 1.0;
    p[255] = 0.5;
    let r = route_single(&bits(&p));
    assert_eq!(r.routed, [255, 0, 1, 2, 3, 4, 5, 6]);
}

#[test]
fn route_of_several_tokens() {
    let mut p = vec![0.0f32; 16];
    p[7] = 1.0;
    p[8] = 1.0;
    let r = route_cpu(&bits(&p), 8, 2);
    assert_eq!(r.len(), 2);
    assert_eq!(r[0].routed[0], 7);
    assert_eq!(r[1].routed[0], 0);
    assert!(route_cpu(&[], 0, 0).is_empty());
}

fn routed_to(first: u16) -> RoutingOutput {
    let mut routed = [0u16; 8];
    let mut weights = [0u32; 8];
    for i in 0..8 {
        routed[i] = first + i as u16;
        weights[i] = (100 * first as usize + i) as u32;
    }
    RoutingOutput { routed, weights, shared_id: 0 }
}

#[test]
fn batches_group_tokens_by_expert() {
    let (tokens, weights, ranges) = build_expert_batches(&[routed_to(1), routed_to(2)], 10);
    assert_eq!(tokens.len(), 18);
    assert_eq!(weights.len(), 18);
    assert_eq!(ranges, vec![0, 2, 3, 5, 7, 9, 11, 13, 15, 17, 18]);
    assert_eq!(&tokens[0..2], &[0, 1]);
    assert_eq!(&weights[0..2], &[1.0f32.to_bits(), 1.0f32.to_bits()]);
    assert_eq!(&tokens[2..5], &[0, 0, 1]);
    assert_eq!(&weights[2..5], &[100, 101, 200]);
    assert_eq!(&tokens[17..], &[1]);
    assert_eq!(&weights[17..], &[207]);
}

#[test]
fn no_tokens_make_no_batches() {
    let (tokens, weights, ranges) = build_expert_batches(&[], 3);
    assert!(tokens.is_empty() && weights.is_empty());
    assert_eq!(ranges, vec![0, 0, 0, 0]);
}
