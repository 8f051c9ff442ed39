use moe_680m::gguf::{GgmlType, ModelConfig};
use moe_680m::inference::{
    draft_logits_offset, record_heads, record_layer, record_moe, unpack_routing, ArenaWrite,
    Command, InferenceState, PushConstants, Scale,
};
use moe_680m::memory::{ArenaLayout, LayerWeights, TensorRegistry};
use moe_680m::pipeline::{pipeline_types, FusedPaths, PipelineType, MAX_PIPELINES};
use moe_680m::router::RoutingOutput;
use moe_680m::schedule::{
    accept, accepted_tokens, commit, forward_single, generate, generate_mtp, prefill,
    prefill_incremental, Action, Step,
};
use moe_680m::vulkan::{
    device_name, device_name_lossy, driver_version, find_compute_queue_family, find_memory_type,
    find_uma_memory_type, select_device, Candidate, SelectError,
};

fn config() -> ModelConfig {
    ModelConfig {
        architecture: "llama".to_string(),
        block_count: 4,
        context_length: 256,
        embedding_length: 2048,
        feed_forward_length: 512,
        expert_count: 16,
        expert_used_count: 8,
        quant_type: GgmlType::IQ4_XS,
    }
}

fn model() -> (ArenaLayout, LayerWeights) {
    let l = ArenaLayout::compute(&config(), 1000);
    let r = TensorRegistry::from_tensors(&[], 64);
    (l, LayerWeights::from_registry(&r, &config()))
}

const NONE_FUSED: FusedPaths = FusedPaths { gqa: false, deltanet: false, moe: false };
const ALL_FUSED: FusedPaths = FusedPaths { gqa: true, deltanet: true, moe: true };

fn bound(cmds: &[Command]) -> Vec<PipelineType> {
    cmds.iter()
        .filter_map(|c| match c {
            Command::Bind(p) => Some(*p),
            _ => None,
        })
        .collect()
}

fn in_sequence(cmds: &[Command]) -> bool {
    let mut running = false;
    for c in cmds {
        match c {
            Command::Dispatch(_, _, _) => {
                if running {
                    return false;
                }
                running = true;
            }
            Command::Barrier => running = false,
            _ => {}
        }
    }
    true
}

#[test]
fn attention_layer_in_parts() {
    let (l, w) = model();
    let s = InferenceState::new();
    let cmds = record_layer(&l, &w, &NONE_FUSED, 3, true, 4, &s);
    assert_eq!(
        bound(&cmds),
        vec![
            PipelineType::RmsNorm,
            PipelineType::GqaQkv,
            PipelineType::GqaQkv,
            PipelineType::GqaQkv,
            PipelineType::Rope,
            PipelineType::KvWrite,
            PipelineType::GqaAttention,
            PipelineType::AttnOutput,
            PipelineType::ResidualAdd,
            PipelineType::Router,
            PipelineType::RouterTopk,
        ]
    );
    assert!(in_sequence(&cmds));
}

#[test]
fn fused_layers_start_fewer_kernels() {
    let (l, w) = model();
    let s = InferenceState::new();
    let gqa = record_layer(&l, &w, &ALL_FUSED, 3, true, 1, &s);
    assert_eq!(
        bound(&gqa),
        vec![
            PipelineType::FusedRmsNormQkvRope,
            PipelineType::KvWrite,
            PipelineType::GqaAttention,
            PipelineType::AttnResidual,
            PipelineType::Router,
            PipelineType::RouterTopk,
        ]
    );
    let dn = record_layer(&l, &w, &ALL_FUSED, 0, false, 1, &s);
    assert_eq!(
        bound(&dn),
        vec![
            PipelineType::FusedRmsNormDnQkv,
            PipelineType::DeltaNetStep,
            PipelineType::DnOutputResidual,
            PipelineType::Router,
            PipelineType::RouterTopk,
        ]
    );
    assert!(in_sequence(&gqa) && in_sequence(&dn));
    assert_eq!(bound(&record_layer(&l, &w, &ALL_FUSED, 0, false, 2, &s)).len(), 7);
}

#[test]
fn keys_and_values_follow_the_queries() {
    let (l, w) = model();
    let s = InferenceState { position: 0, seq_len: 5, hidden_ping: true };
    let cmds = record_layer(&l, &w, &NONE_FUSED, 3, true, 1, &s);
    let pushes: Vec<PushConstants> = cmds
        .iter()
        .filter_map(|c| match c {
            Command::Push(p) => Some(*p),
            _ => None,
        })
        .collect();
    let q = pushes[1].output_offset;
    assert_eq!(q, l.temp_base + 2048 * 2);
    assert_eq!(pushes[2].output_offset, q + 4096 * 2);
    assert_eq!(pushes[3].output_offset, q + 4608 * 2);
    assert_eq!(pushes[4].K, 5);
    assert_eq!(pushes[5].K, 5);
    assert_eq!(pushes[5].weights_offset, l.kv_cache_base);
    assert_eq!(pushes[6].K, 6);
}

fn routed(first: u16) -> RoutingOutput {
    let mut r = [0u16; 8];
    let mut w = [0u32; 8];
    for i in 0..8 {
        r[i] = first + i as u16;
        w[i] = i as u32;
    }
    RoutingOutput { routed: r, weights: w, shared_id: 0 }
}

#[test]
fn one_token_runs_nine_experts() {
    let (l, w) = model();
    let plan = record_moe(&l, &w, &NONE_FUSED, 0, &[routed(1)], 1, true);
    assert!(plan.writes.is_empty());
    let b = bound(&plan.commands);
    assert_eq!(b.len(), 18);
    assert_eq!(b[0], PipelineType::W1W3Fused);
    assert_eq!(b[1], PipelineType::W2Scatter);
    assert!(in_sequence(&plan.commands));
    assert!(plan.commands.iter().any(|c| matches!(c, Command::Push(p) if p.scale == Scale::NinthOf(7))));
}

#[test]
fn fused_experts_are_one_kernel() {
    let (l, w) = model();
    let plan = record_moe(&l, &w, &ALL_FUSED, 0, &[routed(1)], 1, true);
    assert_eq!(bound(&plan.commands), vec![PipelineType::MoeFused]);
    assert!(matches!(plan.commands[2], Command::Dispatch(1, 1032, 1)));
    match &plan.writes[0] {
        ArenaWrite::Weights { offset, bits } => {
            assert_eq!(*offset, l.routing_weight_base);
            assert_eq!(bits, &vec![1.0f32.to_bits(), 0, 1, 2, 3, 4, 5, 6, 7]);
        }
        _ => panic!("no weights"),
    }
    match &plan.writes[1] {
        ArenaWrite::Offsets { offset, values } => {
            assert_eq!(*offset, l.routing_weight_base + 36);
            assert_eq!(values.len(), 27);
        }
        _ => panic!("no offsets"),
    }
}

#[test]
fn batches_run_each_expert_once() {
    let (l, w) = model();
    let plan = record_moe(&l, &w, &ALL_FUSED, 0, &[routed(1), routed(2)], 2, true);
    assert_eq!(plan.writes.len(), 2);
    assert_eq!(bound(&plan.commands).len(), 2 + 2 * 9);
    assert!(in_sequence(&plan.commands));
}

/// The token counts of the kernels of one type that read the matrix at `at`.
fn sizes(cmds: &[Command], pt: PipelineType, at: u64) -> Vec<u32> {
    let mut out = Vec::new();
    let mut current = None;
    for c in cmds {
        match c {
            Command::Bind(p) => current = Some(*p),
            Command::Push(p) if current == Some(pt) && p.weights_offset == at => out.push(p.M),
            _ => {}
        }
    }
    out
}

#[test]
fn push_constants_are_words() {
    let p = PushConstants {
        input_offset: 0x1_0000_0002,
        M: 3,
        token_ids_off: 7,
        layer_idx: 5,
        ..PushConstants::default()
    };
    let w = p.to_words(0x3f80_0000);
    assert_eq!(&w[..2], &[2, 1]);
    assert_eq!(w[6], 3);
    assert_eq!(&w[12..19], &[16, 32, 5, 0, 7, 0, 0x3f80_0000]);
    assert_eq!(&w[19..], &[0; 13]);
}

#[test]
fn experts_write_what_the_next_layer_reads() {
    let (l, w) = model();
    let one = record_moe(&l, &w, &NONE_FUSED, 0, &[routed(1)], 1, true).commands;
    let many = record_moe(&l, &w, &NONE_FUSED, 0, &[routed(1), routed(2)], 2, true).commands;
    for cmds in [one, many] {
        let mut current = None;
        for c in &cmds {
            match c {
                Command::Bind(p) => current = Some(*p),
                Command::Push(p) if current == Some(PipelineType::W1W3Fused) => {
                    assert_eq!(p.input_offset, l.hidden_pong)
                }
                Command::Push(p) => assert_eq!(p.output_offset, l.hidden_pong),
                _ => {}
            }
        }
    }
}

#[test]
fn residual_has_one_group_for_each_token() {
    let (l, w) = model();
    let s = InferenceState { position: 0, seq_len: 0, hidden_ping: true };
    let cmds = record_layer(&l, &w, &NONE_FUSED, 0, false, 3, &s);
    let at = cmds
        .iter()
        .position(|c| matches!(c, Command::Bind(PipelineType::ResidualAdd)))
        .unwrap();
    assert_eq!(cmds[at + 2], Command::Dispatch(3, 1, 1));
}

#[test]
fn shared_expert_is_not_expert_zero() {
    let (l, mut w) = model();
    let n = w.num_experts as usize;
    w.shared_w1[0] = 1;
    w.shared_w2[0] = 2;
    for e in 0..n {
        w.expert_w1[e] = 1000 + e as u64;
        w.expert_w2[e] = 5000 + e as u64;
    }
    let routing = [routed(1), routed(2), routed(2)];
    let plan = record_moe(&l, &w, &NONE_FUSED, 0, &routing, 3, true);
    for (pt, shared, first) in
        [(PipelineType::W1W3Fused, 1, 1000), (PipelineType::W2Scatter, 2, 5000)]
    {
        assert_eq!(sizes(&plan.commands, pt, shared), vec![3]);
        assert_eq!(sizes(&plan.commands, pt, first), Vec::<u32>::new());
        assert_eq!(sizes(&plan.commands, pt, first + 1), vec![1]);
        assert_eq!(sizes(&plan.commands, pt, first + 2), vec![3]);
        assert_eq!(sizes(&plan.commands, pt, first + 9), vec![2]);
    }
    match &plan.writes[0] {
        ArenaWrite::Tokens { ids, .. } => {
            assert_eq!(ids.len(), 27);
            assert_eq!(ids[0], 0);
            assert_eq!(&ids[1..4], &[0, 1, 2]);
            assert_eq!(&ids[24..], &[0, 1, 2]);
        }
        _ => panic!("no tokens"),
    }
    match &plan.writes[1] {
        ArenaWrite::Weights { bits, .. } => {
            assert_eq!(&bits[24..], &[1.0f32.to_bits(); 3]);
        }
        _ => panic!("no weights"),
    }
}

#[test]
fn expert_zero_runs_over_its_own_tokens() {
    let (l, mut w) = model();
    w.shared_w1[0] = 1;
    w.expert_w1[0] = 1000;
    let plan = record_moe(&l, &w, &NONE_FUSED, 0, &[routed(0), routed(1)], 2, true);
    assert_eq!(sizes(&plan.commands, PipelineType::W1W3Fused, 1), vec![2]);
    assert_eq!(sizes(&plan.commands, PipelineType::W1W3Fused, 1000), vec![1]);
}

#[test]
fn heads() {
    let (l, mut w) = model();
    let cmds = record_heads(&l, &w, true);
    assert_eq!(bound(&cmds), vec![PipelineType::AttnOutput]);
    assert!(matches!(cmds[2], Command::Dispatch(1, 31040, 1)));
    w.num_mtp_heads = 2;
    w.mtp_w1 = vec![5, 6];
    w.mtp_w2 = vec![7, 8];
    let cmds = record_heads(&l, &w, true);
    assert_eq!(bound(&cmds).len(), 7);
    assert_eq!(draft_logits_offset(&l, &w, 1), l.scratch_base + 2048 * 256 + 248320 * 2);
    assert!(in_sequence(&cmds));
}

#[test]
fn routing_is_unpacked() {
    let mut entries = vec![0u64; 18];
    for (i, e) in entries.iter_mut().enumerate() {
        *e = ((1000 + i as u64) << 32) | 0xab_0000 | i as u64;
    }
    let r = unpack_routing(64, &entries, 2);
    assert_eq!(r.len(), 2);
    assert_eq!(r[0].routed, [1, 2, 3, 4, 5, 6, 7, 8]);
    assert_eq!(r[1].routed[0], 10);
    assert_eq!(r[1].weights[7], 1017);
    assert_eq!(r[1].shared_id, 0);
    assert!(unpack_routing(0, &[], 2).is_empty());
    assert!(unpack_routing(64, &[], 0).is_empty());
}

fn layers(steps: &[Step]) -> usize {
    steps.iter().filter(|s| matches!(s.action, Action::Layer { .. })).count()
}

#[test]
fn prefill_runs_every_layer_over_all_tokens() {
    let s = InferenceState { position: 3, seq_len: 9, hidden_ping: false };
    let steps = prefill(5, &[7, 8], &s);
    assert_eq!(steps[0].action, Action::Embed { token: 7, pos: 0 });
    assert_eq!(steps[1].action, Action::Embed { token: 8, pos: 1 });
    assert_eq!(steps[2].action, Action::Start);
    assert_eq!(layers(&steps), 5);
    let gqa: Vec<u32> = steps
        .iter()
        .filter_map(|s| match s.action {
            Action::Layer { layer, is_gqa: true, m: 2, .. } => Some(layer),
            _ => None,
        })
        .collect();
    assert_eq!(gqa, vec![3]);
    let end = steps[steps.len() - 1];
    assert_eq!(end.action, Action::Finish);
    assert_eq!(end.after, InferenceState { position: 3, seq_len: 2, hidden_ping: false });
}

#[test]
fn forty_layers_hold_ten_with_attention() {
    let steps = forward_single(40, &InferenceState::new());
    let gqa = steps.iter().filter(|s| matches!(s.action, Action::Layer { is_gqa: true, .. })).count();
    assert_eq!((layers(&steps), gqa), (40, 10));
}

#[test]
fn long_prefills_give_way() {
    let tokens = vec![0u32; 129];
    let yields = |steps: &[Step]| steps.iter().filter(|s| s.action == Action::Yield).count();
    assert_eq!(yields(&prefill(40, &tokens, &InferenceState::new())), 5);
    assert_eq!(yields(&prefill(40, &tokens[..128], &InferenceState::new())), 0);
}

#[test]
fn incremental_prefill_takes_tokens_in_turn() {
    let s = InferenceState { position: 0, seq_len: 4, hidden_ping: false };
    let steps = prefill_incremental(2, &[7, 8], &s);
    assert_eq!(steps[0].action, Action::Embed { token: 7, pos: 4 });
    assert_eq!(steps[0].after, InferenceState { position: 4, seq_len: 4, hidden_ping: true });
    assert_eq!(layers(&steps), 4);
    assert_eq!(
        steps[steps.len() - 1].after,
        InferenceState { position: 5, seq_len: 6, hidden_ping: true }
    );
}

#[test]
fn hidden_buffers_alternate() {
    let steps = forward_single(3, &InferenceState::new());
    let pings: Vec<bool> = steps
        .iter()
        .filter_map(|s| match s.action {
            Action::Experts { ping, .. } => Some(ping),
            Action::Head { ping } => Some(ping),
            _ => None,
        })
        .collect();
    assert_eq!(pings, vec![true, false, true, false]);
}

#[test]
fn generation_catches_up_first() {
    let fresh = generate(2, &[1, 2, 3], &InferenceState::new());
    assert_eq!(layers(&fresh), 4);
    assert_eq!(fresh[fresh.len() - 1].after.seq_len, 3);
    let s = InferenceState { position: 0, seq_len: 2, hidden_ping: true };
    let more = generate(2, &[1, 2, 3, 4], &s);
    assert_eq!(more[0].action, Action::Embed { token: 3, pos: 2 });
    assert_eq!(layers(&more), 6);
    assert_eq!(more[more.len() - 1].after.seq_len, 4);
    let none = generate(2, &[1, 2], &s);
    assert_eq!(layers(&none), 2);
    assert_eq!(none[none.len() - 1].after.seq_len, 2);
}

#[test]
fn chosen_tokens_join_the_sequence() {
    let s = InferenceState { position: 1, seq_len: 5, hidden_ping: false };
    let c = commit(9, &s);
    assert_eq!(c.action, Action::Embed { token: 9, pos: 5 });
    assert_eq!(c.after, InferenceState { position: 2, seq_len: 6, hidden_ping: false });
    assert_eq!(generate_mtp(3, 0, 9, &[], &s), vec![c]);
    assert_eq!(accepted_tokens(9, &[4, 5]), vec![9, 4, 5]);
    let steps = generate_mtp(2, 2, 9, &[4, 5], &s);
    assert_eq!(steps, accept(2, &[9, 4, 5], 5, &s));
    assert_eq!(steps[2].action, Action::Embed { token: 5, pos: 7 });
    assert_eq!(
        steps[steps.len() - 1].after,
        InferenceState { position: 7, seq_len: 8, hidden_ping: true }
    );
}

#[test]
fn pipelines_have_slots_and_shaders() {
    let all = pipeline_types();
    assert_eq!(all.len(), 22);
    let mut slots: Vec<usize> = all.iter().map(|p| p.index()).collect();
    slots.sort();
    slots.dedup();
    assert_eq!(slots.len(), 22);
    assert!(slots.iter().all(|s| *s < MAX_PIPELINES));
    assert_eq!(PipelineType::RmsNorm.shader_name(), "rms_norm");
    let mut loaded = vec![false; MAX_PIPELINES];
    loaded[PipelineType::MoeFused.index()] = true;
    loaded[PipelineType::FusedRmsNormQkvRope.index()] = true;
    let f = FusedPaths::from_loaded(&loaded);
    assert!(f.moe && !f.gqa && !f.deltanet);
}

#[test]
fn devices_are_selected() {
    assert_eq!(find_memory_type(&[1, 7, 7], 0b101, 7), Some(2));
    assert_eq!(find_memory_type(&[1, 2], 0b11, 7), None);
    assert_eq!(find_uma_memory_type(&[6, 15]), Some(1));
    assert_eq!(find_compute_queue_family(&[4, 2]), Some(1));
    let none = Candidate { memory_types: vec![7], queue_families: vec![4] };
    let good = Candidate { memory_types: vec![1, 7], queue_families: vec![2] };
    match select_device(&[none, good]) {
        Ok(s) => assert_eq!((s.device, s.uma_memory_type, s.queue_family), (1, 1, 0)),
        Err(_) => panic!("none"),
    }
    assert_eq!(select_device(&[]), Err(SelectError::NoDevice));
    let bad = Candidate { memory_types: vec![1], queue_families: vec![2] };
    assert_eq!(select_device(&[bad]), Err(SelectError::NoUma));
    assert_eq!(SelectError::NoDevice.message(), "No Vulkan physical devices found");
    assert!(SelectError::NoUma.message().starts_with("No device with UMA memory"));
}

#[test]
fn devices_have_names_and_versions() {
    assert_eq!(driver_version((1 << 29) | (23 << 22) | (5 << 12) | 9), "1.23.5");
    assert_eq!(device_name(b"Radeon\0\0"), "Radeon");
    assert_eq!(device_name(&[0xff, 0]), "unknown");
    assert_eq!(device_name_lossy(b"A\0"), "A");
    assert_eq!(device_name_lossy(&[0x41, 0xff, 0]), "A\u{fffd}");
}
