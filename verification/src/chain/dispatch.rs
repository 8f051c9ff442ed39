//! Chains of compute dispatches, and their recording.

use vstd::prelude::*;

use crate::chain::constants;
use crate::chain::constants::BarrierMasks;
use crate::chain::error::Error;
use crate::chain::shaders;
use crate::text;

verus! {

/// Kind of pipeline barrier to insert after a dispatch step.
#[derive(Debug, Clone, Copy, PartialEq, Eq, Structural)]
pub enum BarrierKind {
    /// No barrier: the next step runs in pipeline order, with no guarantee on memory.
    NoBarrier,
    /// Execution barrier only: the next step runs after this one completes.
    ExecOnly,
    /// Full memory flush: all previous storage writes are visible to later reads.
    MemoryFlush,
    /// Host-available: writes are visible to the host.
    HostRead,
}

impl BarrierKind {
    /// The masks of the barrier, if there is one.
    pub open spec fn masks_spec(self) -> Option<BarrierMasks> {
        match self {
            BarrierKind::NoBarrier => None,
            BarrierKind::ExecOnly => Some(
                BarrierMasks {
                    src_stage: constants::STAGE_COMPUTE_SHADER,
                    src_access: 0,
                    dst_stage: constants::STAGE_COMPUTE_SHADER,
                    dst_access: 0,
                },
            ),
            BarrierKind::MemoryFlush => Some(
                BarrierMasks {
                    src_stage: constants::STAGE_COMPUTE_SHADER,
                    src_access: constants::ACCESS_STORAGE_WRITE,
                    dst_stage: constants::STAGE_COMPUTE_SHADER,
                    dst_access: constants::ACCESS_STORAGE_READ,
                },
            ),
            BarrierKind::HostRead => Some(
                BarrierMasks {
                    src_stage: constants::STAGE_COMPUTE_SHADER,
                    src_access: constants::ACCESS_STORAGE_WRITE,
                    dst_stage: constants::STAGE_HOST,
                    dst_access: constants::ACCESS_HOST_READ,
                },
            ),
        }
    }

    /// The masks of the barrier, if there is one.
    pub fn masks(self) -> (r: Option<BarrierMasks>)
        ensures
            r == self.masks_spec(),
    {
        match self {
            BarrierKind::NoBarrier => None,
            BarrierKind::ExecOnly => Some(constants::barrier_exec_only()),
            BarrierKind::MemoryFlush => Some(constants::barrier_memory_flush()),
            BarrierKind::HostRead => Some(constants::barrier_host_read()),
        }
    }
}

/// A storage buffer bound to a descriptor slot: the buffer's handle and the
/// part of it that the shader sees.
#[derive(Debug, Clone, Copy, PartialEq, Eq, Structural)]
pub struct BufferBinding {
    pub buffer: u64,
    pub offset: u64,
    pub range: u64,
}

/// A single dispatch step in a multi-step chain.
pub struct DispatchStep {
    /// Name of a pipeline (one of the shaders).
    pub pipeline_name: &'static str,
    /// 128 bytes of push constants.
    pub push_data: [u8; 128],
    /// Workgroup counts.
    pub workgroup_x: u32,
    pub workgroup_y: u32,
    pub workgroup_z: u32,
    /// Buffer bindings, one per descriptor slot, from slot 0 on.
    pub buffers: Vec<BufferBinding>,
    /// Barrier to apply after this step.
    pub barrier: BarrierKind,
}

/// What a step is meant to do, with its push constants as words.
pub struct StepPlan {
    pub pipeline: Seq<char>,
    pub words: Seq<u32>,
    pub x: u32,
    pub y: u32,
    pub z: u32,
    pub buffers: Seq<BufferBinding>,
    pub barrier: BarrierKind,
}

impl DispatchStep {
    /// The step does what `plan` says.
    pub open spec fn follows(&self, plan: StepPlan) -> bool {
        &&& self.pipeline_name@ == plan.pipeline
        &&& constants::holds_words(self.push_data@, plan.words)
        &&& self.workgroup_x == plan.x
        &&& self.workgroup_y == plan.y
        &&& self.workgroup_z == plan.z
        &&& self.buffers@ == plan.buffers
        &&& self.barrier == plan.barrier
    }
}

/// `steps` is `start` followed by steps that do, one for one, what `plan` says.
pub open spec fn continues(
    start: Seq<DispatchStep>,
    steps: Seq<DispatchStep>,
    plan: Seq<StepPlan>,
) -> bool {
    &&& steps.len() == start.len() + plan.len()
    &&& forall|i: int| 0 <= i < start.len() ==> #[trigger] steps[i] == start[i]
    &&& forall|i: int|
        start.len() <= i < steps.len() ==> (#[trigger] steps[i]).follows(plan[i - start.len()])
}

/// What follows two plans in turn follows them joined.
pub proof fn lemma_continues_joins(
    a: Seq<DispatchStep>,
    b: Seq<DispatchStep>,
    c: Seq<DispatchStep>,
    p: Seq<StepPlan>,
    q: Seq<StepPlan>,
)
    requires
        continues(a, b, p),
        continues(b, c, q),
    ensures
        continues(a, c, p + q),
{
    assert forall|i: int| 0 <= i < a.len() implies #[trigger] c[i] == a[i] by {
        assert(c[i] == b[i]);
    }
    assert forall|i: int| a.len() <= i < c.len() implies (#[trigger] c[i]).follows(
        (p + q)[i - a.len()],
    ) by {
        if i < b.len() {
            assert(c[i] == b[i]);
            assert((p + q)[i - a.len()] == p[i - a.len()]);
        } else {
            assert((p + q)[i - a.len()] == q[i - b.len()]);
        }
    }
}

/// One command of the recording: what to bind, push and dispatch, and the
/// barrier that follows.
pub struct RecordedStep {
    /// Index of the shader whose pipeline and descriptor set are bound.
    pub shader: usize,
    pub push_data: [u8; 128],
    /// Descriptor writes, from slot 0 on; no write when empty.
    pub buffers: Vec<BufferBinding>,
    pub workgroup_x: u32,
    pub workgroup_y: u32,
    pub workgroup_z: u32,
    pub barrier: Option<BarrierMasks>,
}

impl RecordedStep {
    /// The command that records `step`.
    pub open spec fn records(&self, step: DispatchStep) -> bool {
        &&& self.shader < shaders::shader_list().len()
        &&& shaders::shader_list()[self.shader as int] == step.pipeline_name@
        &&& self.push_data@ == step.push_data@
        &&& self.buffers@ == step.buffers@
        &&& self.workgroup_x == step.workgroup_x
        &&& self.workgroup_y == step.workgroup_y
        &&& self.workgroup_z == step.workgroup_z
        &&& self.barrier == step.barrier.masks_spec()
    }
}

/// Some pipeline of the cache has this name.
pub open spec fn is_loaded(loaded: Seq<String>, name: Seq<char>) -> bool {
    exists|i: int| 0 <= i < loaded.len() && #[trigger] loaded[i]@ == name
}

/// Why `step` cannot be recorded, if it cannot.
pub open spec fn step_fault(loaded: Seq<String>, step: DispatchStep) -> Option<Seq<char>> {
    if !is_loaded(loaded, step.pipeline_name@) {
        Some("unknown pipeline: "@ + step.pipeline_name@)
    } else if !shaders::shader_list().contains(step.pipeline_name@) {
        Some("pipeline '"@ + step.pipeline_name@ + "' not in SHADERS list"@)
    } else {
        None
    }
}

/// Accumulates a sequence of compute dispatches.
pub struct DispatchChain {
    steps: Vec<DispatchStep>,
}

impl View for DispatchChain {
    type V = Seq<DispatchStep>;

    closed spec fn view(&self) -> Seq<DispatchStep> {
        self.steps@
    }
}

impl DispatchChain {
    /// A chain without steps.
    pub fn new() -> (r: Self)
        ensures
            r@ == Seq::<DispatchStep>::empty(),
    {
        DispatchChain { steps: Vec::new() }
    }

    /// Append a dispatch step to the chain.
    pub fn add(&mut self, step: DispatchStep)
        ensures
            final(self)@ == old(self)@.push(step),
    {
        self.steps.push(step);
    }

    /// The number of steps.
    pub fn len(&self) -> (n: usize)
        ensures
            n == self@.len(),
    {
        self.steps.len()
    }

    /// The step at `i`.
    pub fn step(&self, i: usize) -> (r: &DispatchStep)
        requires
            i < self@.len(),
        ensures
            *r == self@[i as int],
    {
        &self.steps[i]
    }

    /// The commands that carry out the chain, in order, given the names of the
    /// pipelines that were loaded. The first step that cannot be recorded fails
    /// the whole chain.
    pub fn record(&self, loaded: &Vec<String>) -> (r: Result<Vec<RecordedStep>, Error>)
        ensures
            match r {
                Ok(cmds) => {
                    &&& cmds@.len() == self@.len()
                    &&& forall|i: int|
                        0 <= i < self@.len() ==> step_fault(loaded@, self@[i]) is None
                            && (#[trigger] cmds@[i]).records(self@[i])
                },
                Err(e) => exists|i: int|
                    {
                        &&& 0 <= i < self@.len()
                        &&& forall|j: int|
                            0 <= j < i ==> step_fault(loaded@, #[trigger] self@[j]) is None
                        &&& #[trigger] step_fault(loaded@, self@[i]) is Some
                        &&& e matches Error::Api(m) && m@ == step_fault(loaded@, self@[i])->0
                    },
            },
    {
        let mut cmds: Vec<RecordedStep> = Vec::new();
        let mut i: usize = 0;
        while i < self.steps.len()
            invariant
                i <= self.steps.len(),
                self@ == self.steps@,
                cmds@.len() == i,
                forall|j: int| 0 <= j < i ==> step_fault(loaded@, #[trigger] self@[j]) is None,
                forall|j: int| 0 <= j < i ==> (#[trigger] cmds@[j]).records(self@[j]),
            decreases self.steps.len() - i,
        {
            let step: &DispatchStep = &self.steps[i];
            if !contains_name(loaded, step.pipeline_name) {
                let mut m: String = String::new();
                m.append("unknown pipeline: ");
                m.append(step.pipeline_name);
                assert(step_fault(loaded@, self@[i as int]) is Some);
                return Err(Error::Api(m));
            }
            match shaders::shader_index(step.pipeline_name) {
                None => {
                    let mut m: String = String::new();
                    m.append("pipeline '");
                    m.append(step.pipeline_name);
                    m.append("' not in SHADERS list");
                    assert(step_fault(loaded@, self@[i as int]) is Some);
                    return Err(Error::Api(m));
                },
                Some(shader) => {
                    cmds.push(
                        RecordedStep {
                            shader,
                            push_data: step.push_data,
                            buffers: step.buffers.clone(),
                            workgroup_x: step.workgroup_x,
                            workgroup_y: step.workgroup_y,
                            workgroup_z: step.workgroup_z,
                            barrier: step.barrier.masks(),
                        },
                    );
                    assert(cmds@[i as int].buffers@ =~= step.buffers@);
                },
            }
            i = i + 1;
        }
        Ok(cmds)
    }
}

/// Whether one of `names` is `name`.
fn contains_name(names: &Vec<String>, name: &str) -> (r: bool)
    ensures
        r == is_loaded(names@, name@),
{
    let mut i: usize = 0;
    while i < names.len()
        invariant
            i <= names.len(),
            forall|j: int| 0 <= j < i ==> (#[trigger] names@[j])@ != name@,
        decreases names.len() - i,
    {
        if text::same_text(names[i].as_str(), name) {
            return true;
        }
        i = i + 1;
    }
    false
}

} // verus!
