//! Push-constant blocks and barrier masks.
//!
//! A block is a row of 32-bit words. Fields that hold a floating-point number
//! hold its bit pattern.

use vstd::prelude::*;

verus! {

/// Alignment of every buffer, in bytes.
pub const ALIGNMENT: u64 = 128;

/// Words in one push-constant range.
pub const PUSH_WORDS: usize = 32;

#[derive(Copy, Clone, Debug, Default)]
pub struct RMSNormPC {
    pub rows: u32,
    pub dim: u32,
    pub eps_bits: u32,
}

#[derive(Copy, Clone, Debug, Default)]
pub struct LinearPC {
    pub in_dim: u32,
    pub out_dim: u32,
    pub pad: [u32; 2],
}

#[derive(Copy, Clone, Debug, Default)]
pub struct AttentionPC {
    pub seq_len: u32,
    pub n_heads: u32,
    pub n_kv_heads: u32,
    pub head_dim: u32,
    pub max_seq_len: u32,
}

#[derive(Copy, Clone, Debug, Default)]
pub struct RouterPC {
    pub dim: u32,
    pub n_experts: u32,
    pub n_active: u32,
    pub n_shared: u32,
}

#[derive(Copy, Clone, Debug, Default)]
pub struct MoEPC {
    pub dim: u32,
    pub intermediate: u32,
    pub expert_idx: u32,
    pub is_shared: u32,
}

#[derive(Copy, Clone, Debug, Default)]
pub struct SamplePC {
    pub vocab_size: u32,
    pub temperature_bits: u32,
    pub top_p_bits: u32,
    pub top_k: u32,
}

#[derive(Copy, Clone, Debug, Default)]
pub struct MTPBlockPC {
    pub dim: u32,
    pub head_dim: u32,
    pub n_heads: u32,
    pub n_kv_heads: u32,
    pub pos: u32,
    pub block_idx: u32,
}

/// A push-constant block: its fields in order, one word each.
pub trait PushBlock {
    spec fn words(&self) -> Seq<u32>;

    fn to_words(&self) -> (r: Vec<u32>)
        ensures
            r@ == self.words(),
            r@.len() <= PUSH_WORDS,
    ;
}

impl PushBlock for RMSNormPC {
    open spec fn words(&self) -> Seq<u32> {
        seq![self.rows, self.dim, self.eps_bits]
    }

    fn to_words(&self) -> (r: Vec<u32>) {
        vec![self.rows, self.dim, self.eps_bits]
    }
}

impl PushBlock for LinearPC {
    open spec fn words(&self) -> Seq<u32> {
        seq![self.in_dim, self.out_dim, self.pad[0], self.pad[1]]
    }

    fn to_words(&self) -> (r: Vec<u32>) {
        vec![self.in_dim, self.out_dim, self.pad[0], self.pad[1]]
    }
}

impl PushBlock for AttentionPC {
    open spec fn words(&self) -> Seq<u32> {
        seq![self.seq_len, self.n_heads, self.n_kv_heads, self.head_dim, self.max_seq_len]
    }

    fn to_words(&self) -> (r: Vec<u32>) {
        vec![self.seq_len, self.n_heads, self.n_kv_heads, self.head_dim, self.max_seq_len]
    }
}

impl PushBlock for RouterPC {
    open spec fn words(&self) -> Seq<u32> {
        seq![self.dim, self.n_experts, self.n_active, self.n_shared]
    }

    fn to_words(&self) -> (r: Vec<u32>) {
        vec![self.dim, self.n_experts, self.n_active, self.n_shared]
    }
}

impl PushBlock for MoEPC {
    open spec fn words(&self) -> Seq<u32> {
        seq![self.dim, self.intermediate, self.expert_idx, self.is_shared]
    }

    fn to_words(&self) -> (r: Vec<u32>) {
        vec![self.dim, self.intermediate, self.expert_idx, self.is_shared]
    }
}

impl PushBlock for SamplePC {
    open spec fn words(&self) -> Seq<u32> {
        seq![self.vocab_size, self.temperature_bits, self.top_p_bits, self.top_k]
    }

    fn to_words(&self) -> (r: Vec<u32>) {
        vec![self.vocab_size, self.temperature_bits, self.top_p_bits, self.top_k]
    }
}

impl PushBlock for MTPBlockPC {
    open spec fn words(&self) -> Seq<u32> {
        seq![self.dim, self.head_dim, self.n_heads, self.n_kv_heads, self.pos, self.block_idx]
    }

    fn to_words(&self) -> (r: Vec<u32>) {
        vec![self.dim, self.head_dim, self.n_heads, self.n_kv_heads, self.pos, self.block_idx]
    }
}

/// Byte `k` of `word`, counted from the least significant one.
pub open spec fn word_byte(word: u32, k: int) -> u8 {
    ((word >> ((8 * k) as u32)) & 0xff) as u8
}

/// The words with their least significant byte first.
pub open spec fn little_endian(words: Seq<u32>) -> Seq<u8> {
    Seq::new(4 * words.len(), |i: int| word_byte(words[i / 4], i % 4))
}

/// The words with their most significant byte first.
pub open spec fn big_endian(words: Seq<u32>) -> Seq<u8> {
    Seq::new(4 * words.len(), |i: int| word_byte(words[i / 4], 3 - i % 4))
}

/// The words followed by zeros up to a full push-constant range.
pub open spec fn padded(words: Seq<u32>) -> Seq<u32> {
    words + Seq::new((PUSH_WORDS - words.len()) as nat, |i: int| 0u32)
}

/// `data` is the memory image of `words`, zero-padded, in the byte order of the
/// machine.
pub open spec fn holds_words(data: Seq<u8>, words: Seq<u32>) -> bool {
    data == little_endian(padded(words)) || data == big_endian(padded(words))
}

/// Calls `bytemuck::bytes_of`, which reads the array's memory as bytes: each
/// word's four bytes in turn, in the byte order of the machine. Which of the two
/// orders that is, is left open.
#[verifier::external_body]
fn image(words: &[u32; 32]) -> (data: [u8; 128])
    ensures
        data@ == little_endian(words@) || data@ == big_endian(words@),
{
    let mut data = [0u8; 128];
    data.copy_from_slice(bytemuck::bytes_of(words));
    data
}

/// The push-constant range that holds `pc`, zero-padded.
pub fn pc_bytes<T: PushBlock>(pc: &T) -> (data: [u8; 128])
    ensures
        holds_words(data@, pc.words()),
{
    let fields: Vec<u32> = pc.to_words();
    let mut words: [u32; 32] = [0u32; 32];
    let mut i: usize = 0;
    while i < fields.len()
        invariant
            i <= fields.len() <= PUSH_WORDS,
            fields@ == pc.words(),
            forall|j: int| 0 <= j < i ==> words@[j] == fields@[j],
            forall|j: int| i <= j < PUSH_WORDS ==> words@[j] == 0,
        decreases fields.len() - i,
    {
        words[i] = fields[i];
        i = i + 1;
    }
    assert(words@ =~= padded(pc.words()));
    image(&words)
}

/// Stages and accesses on the two sides of a memory barrier, as Vulkan's
/// synchronization2 bit masks.
#[derive(Copy, Clone, Debug, PartialEq, Eq, Structural)]
pub struct BarrierMasks {
    pub src_stage: u64,
    pub src_access: u64,
    pub dst_stage: u64,
    pub dst_access: u64,
}

/// The compute-shader stage.
pub const STAGE_COMPUTE_SHADER: u64 = 0x800;

/// The host stage.
pub const STAGE_HOST: u64 = 0x4000;

/// Reads of storage buffers.
pub const ACCESS_STORAGE_READ: u64 = 0x2_0000_0000;

/// Writes of storage buffers.
pub const ACCESS_STORAGE_WRITE: u64 = 0x4_0000_0000;

/// Reads by the host.
pub const ACCESS_HOST_READ: u64 = 0x2000;

/// Execution-only barrier (no memory flush): compute to compute on one queue.
pub fn barrier_exec_only() -> (b: BarrierMasks)
    ensures
        b == (BarrierMasks {
            src_stage: STAGE_COMPUTE_SHADER,
            src_access: 0,
            dst_stage: STAGE_COMPUTE_SHADER,
            dst_access: 0,
        }),
{
    BarrierMasks {
        src_stage: STAGE_COMPUTE_SHADER,
        src_access: 0,
        dst_stage: STAGE_COMPUTE_SHADER,
        dst_access: 0,
    }
}

/// Memory barrier that makes storage writes visible to later storage reads.
pub fn barrier_memory_flush() -> (b: BarrierMasks)
    ensures
        b == (BarrierMasks {
            src_stage: STAGE_COMPUTE_SHADER,
            src_access: ACCESS_STORAGE_WRITE,
            dst_stage: STAGE_COMPUTE_SHADER,
            dst_access: ACCESS_STORAGE_READ,
        }),
{
    BarrierMasks {
        src_stage: STAGE_COMPUTE_SHADER,
        src_access: ACCESS_STORAGE_WRITE,
        dst_stage: STAGE_COMPUTE_SHADER,
        dst_access: ACCESS_STORAGE_READ,
    }
}

/// Memory barrier for a host read after a device write.
pub fn barrier_host_read() -> (b: BarrierMasks)
    ensures
        b == (BarrierMasks {
            src_stage: STAGE_COMPUTE_SHADER,
            src_access: ACCESS_STORAGE_WRITE,
            dst_stage: STAGE_HOST,
            dst_access: ACCESS_HOST_READ,
        }),
{
    BarrierMasks {
        src_stage: STAGE_COMPUTE_SHADER,
        src_access: ACCESS_STORAGE_WRITE,
        dst_stage: STAGE_HOST,
        dst_access: ACCESS_HOST_READ,
    }
}

} // verus!
