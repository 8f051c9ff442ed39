//! A pool of weight tensors for one layer at a time.

use vstd::hash_map::StringHashMap;
use vstd::prelude::*;

use crate::chain::error::Error;
use crate::chain::gguf::{GgufDtype, GgufFile, TensorInfo};
use crate::chain::memory;

verus! {

/// Bytes to skip at the start of a 32-bit float tensor: such a tensor is stored
/// behind a prefix of this length.
pub const F32_PREFIX: usize = 16;

/// Where a tensor lies in the pool, and which of its bytes are copied there.
#[derive(Debug, Clone, Copy, PartialEq, Eq, Structural)]
pub struct Upload {
    /// Offset in the pool, a multiple of 128.
    pub offset: u64,
    /// Bytes reserved, which is the tensor's whole size.
    pub size: u64,
    /// Bytes of the tensor that are skipped.
    pub skip: u64,
    /// Whether the tensor still has to be copied.
    pub fresh: bool,
}

/// Bytes skipped at the start of a tensor of this type and size.
pub open spec fn skipped(dtype: GgufDtype, size: u64) -> u64 {
    if dtype == GgufDtype::F32 && size > F32_PREFIX {
        F32_PREFIX as u64
    } else {
        0
    }
}

/// The first tensor of this name.
pub open spec fn tensor_named(ts: Seq<TensorInfo>, name: Seq<char>, i: int) -> bool {
    &&& 0 <= i < ts.len()
    &&& ts[i].name@ == name
    &&& forall|j: int| 0 <= j < i ==> (#[trigger] ts[j]).name@ != name
}

/// Tensors by name in a block of memory: offset and size.
pub struct WeightPool {
    buffers: StringHashMap<(u64, u64)>,
    total_size: u64,
    next_offset: u64,
}

impl View for WeightPool {
    type V = Map<Seq<char>, (u64, u64)>;

    closed spec fn view(&self) -> Map<Seq<char>, (u64, u64)> {
        self.buffers@
    }
}

impl WeightPool {
    pub closed spec fn total(&self) -> int {
        self.total_size as int
    }

    pub closed spec fn used(&self) -> int {
        self.next_offset as int
    }

    /// Every tensor starts at a multiple of 128 and lies in the used part, and
    /// tensors are disjoint.
    pub closed spec fn well_formed(&self) -> bool {
        &&& self.next_offset <= self.total_size
        &&& self.total_size + 128 <= u64::MAX
        &&& forall|n: Seq<char>| #[trigger]
            self@.contains_key(n) ==> self@[n].0 % 128 == 0 && self@[n].0 + self@[n].1
                <= self.next_offset
        &&& forall|m: Seq<char>, n: Seq<char>|
            self@.contains_key(m) && self@.contains_key(n) && m != n ==> memory::disjoint(
                #[trigger] self@[m],
                #[trigger] self@[n],
            )
    }

    /// An empty pool over `size` bytes.
    pub fn new(size: u64) -> (r: Self)
        requires
            size + 128 <= u64::MAX,
        ensures
            r.well_formed(),
            r.total() == size,
            r.used() == 0,
            r@ == Map::<Seq<char>, (u64, u64)>::empty(),
    {
        WeightPool { buffers: StringHashMap::new(), total_size: size, next_offset: 0 }
    }

    /// Finds a place for a tensor, or its place if it has one already.
    ///
    /// The whole size is reserved, also where a prefix is skipped.
    pub fn upload(&mut self, gguf: &GgufFile, tensor_name: &str) -> (r: Result<Upload, Error>)
        requires
            old(self).well_formed(),
        ensures
            final(self).well_formed(),
            final(self).total() == old(self).total(),
            if old(self)@.contains_key(tensor_name@) {
                &&& *final(self) == *old(self)
                &&& r == Ok::<Upload, Error>(
                    Upload {
                        offset: old(self)@[tensor_name@].0,
                        size: old(self)@[tensor_name@].1,
                        skip: 0,
                        fresh: false,
                    },
                )
            } else {
                match r {
                    Ok(up) => exists|i: int|
                        {
                            let start = memory::start_at(old(self).used());
                            let t = gguf.tensors@[i];
                            &&& #[trigger] tensor_named(gguf.tensors@, tensor_name@, i)
                            &&& t.size_bytes > 0
                            &&& start + t.size_bytes <= old(self).total()
                            &&& up == (Upload {
                                offset: start as u64,
                                size: t.size_bytes,
                                skip: skipped(t.dtype, t.size_bytes),
                                fresh: true,
                            })
                            &&& final(self)@ == old(self)@.insert(
                                tensor_name@,
                                (start as u64, t.size_bytes),
                            )
                            &&& final(self).used() == start + t.size_bytes
                        },
                    Err(e) => {
                        &&& *final(self) == *old(self)
                        &&& upload_fault(*old(self), gguf.tensors@, tensor_name@, e)
                    },
                }
            },
    {
        match self.buffers.get(tensor_name) {
            Some(place) => {
                return Ok(Upload { offset: place.0, size: place.1, skip: 0, fresh: false });
            },
            None => {},
        }
        let tensor: &TensorInfo = match gguf.find_tensor(tensor_name) {
            Some(t) => t,
            None => {
                let mut m: String = "tensor not found: ".to_owned();
                m.append(tensor_name);
                return Err(Error::Api(m));
            },
        };
        let ghost i = choose|i: int| tensor_named(gguf.tensors@, tensor_name@, i)
            && gguf.tensors@[i] == *tensor;
        assert(tensor_named(gguf.tensors@, tensor_name@, i) && gguf.tensors@[i] == *tensor);
        let size: u64 = tensor.size_bytes;
        if size == 0 {
            let mut m: String = "zero-sized tensor: ".to_owned();
            m.append(tensor_name);
            return Err(Error::Api(m));
        }
        let skip: u64 = if tensor.dtype == GgufDtype::F32 && size > F32_PREFIX as u64 {
            F32_PREFIX as u64
        } else {
            0
        };
        proof {
            assert(crate::align::is_power_of_two(128)) by {
                assert(128u64 & 127u64 == 0) by (bit_vector);
            }
            crate::align::lemma_round_up(self.next_offset as int, 128);
        }
        let offset: u64 = memory::align_up(self.next_offset, 128);
        if offset > self.total_size {
            return Err(Error::OutOfMemory { needed: size, available: 0 });
        }
        let available: u64 = self.total_size - offset;
        if size > available {
            return Err(Error::OutOfMemory { needed: size, available });
        }
        self.buffers.insert(tensor_name.to_owned(), (offset, size));
        self.next_offset = offset + size;
        proof {
            assert(offset as int % 128 == 0);
            assert forall|n: Seq<char>| #[trigger] self@.contains_key(n) implies self@[n].0 % 128
                == 0 && self@[n].0 + self@[n].1 <= self.next_offset by {
                if n != tensor_name@ {
                    assert(old(self)@.contains_key(n));
                }
            }
            assert forall|m: Seq<char>, n: Seq<char>|
                self@.contains_key(m) && self@.contains_key(n) && m
                    != n implies memory::disjoint(#[trigger] self@[m], #[trigger] self@[n]) by {
                if m != tensor_name@ {
                    assert(old(self)@.contains_key(m));
                }
                if n != tensor_name@ {
                    assert(old(self)@.contains_key(n));
                }
                if m != tensor_name@ && n != tensor_name@ {
                    assert(memory::disjoint(old(self)@[m], old(self)@[n]));
                }
            }
        }
        Ok(Upload { offset, size, skip, fresh: true })
    }

    /// Forgets all tensors, for the next layer to use the memory from its start.
    pub fn clear(&mut self)
        requires
            old(self).well_formed(),
        ensures
            final(self).well_formed(),
            final(self).total() == old(self).total(),
            final(self).used() == 0,
            final(self)@ == Map::<Seq<char>, (u64, u64)>::empty(),
    {
        self.buffers.clear();
        self.next_offset = 0;
    }
}

/// `e` says why a tensor that the pool does not hold cannot be placed.
pub open spec fn upload_fault(
    pool: WeightPool,
    ts: Seq<TensorInfo>,
    name: Seq<char>,
    e: Error,
) -> bool {
    if forall|i: int| !tensor_named(ts, name, i) {
        e matches Error::Api(m) && m@ == "tensor not found: "@ + name
    } else {
        exists|i: int|
            {
                &&& #[trigger] tensor_named(ts, name, i)
                &&& if ts[i].size_bytes == 0 {
                    e matches Error::Api(m) && m@ == "zero-sized tensor: "@ + name
                } else {
                    &&& memory::start_at(pool.used()) + ts[i].size_bytes > pool.total()
                    &&& memory::is_out_of_memory(e, pool.used(), pool.total(), ts[i].size_bytes)
                }
            }
    }
}

/// Every tensor of the pool is 128-byte aligned, lies in the pool, and shares no
/// byte with another one.
pub proof fn law_tensors_are_apart(pool: WeightPool, m: Seq<char>, n: Seq<char>)
    requires
        pool.well_formed(),
        pool@.contains_key(m),
        pool@.contains_key(n),
    ensures
        pool@[m].0 % 128 == 0,
        pool@[m].0 + pool@[m].1 <= pool.used() <= pool.total(),
        m != n ==> memory::disjoint(pool@[m], pool@[n]),
{
}

/// Of several tensors of one name the first one counts. One that cannot be placed
/// is named where it is missing or empty; else what it needs is more than is
/// there.
pub proof fn law_first_tensor_is_placed(
    pool: WeightPool,
    ts: Seq<TensorInfo>,
    name: Seq<char>,
    e: Error,
    i: int,
    j: int,
)
    requires
        pool.well_formed(),
        upload_fault(pool, ts, name, e),
        tensor_named(ts, name, i),
        0 <= j < ts.len(),
        ts[j].name@ == name,
    ensures
        i <= j,
        ts[i].name@ == name,
        ts[i].size_bytes == 0 ==> e is Api,
        ts[i].size_bytes > 0 ==> e is OutOfMemory && e->needed == ts[i].size_bytes && e->available
            < e->needed,
{
    let a = choose|a: int|
        {
            &&& #[trigger] tensor_named(ts, name, a)
            &&& if ts[a].size_bytes == 0 {
                e matches Error::Api(m) && m@ == "zero-sized tensor: "@ + name
            } else {
                &&& memory::start_at(pool.used()) + ts[a].size_bytes > pool.total()
                &&& memory::is_out_of_memory(e, pool.used(), pool.total(), ts[a].size_bytes)
            }
        };
    assert(tensor_named(ts, name, a) && a == i);
}

} // verus!
