//! Sub-allocation from one block of device memory.

use vstd::hash_map::StringHashMap;
use vstd::prelude::*;

use crate::align;
use crate::chain::constants::ALIGNMENT;
use crate::chain::error::Error;

verus! {

/// Rounds `offset` up to a multiple of the power of two `alignment`.
pub fn align_up(offset: u64, alignment: u64) -> (r: u64)
    requires
        alignment >= 1,
        offset + alignment - 1 <= u64::MAX,
    ensures
        r == (offset + alignment - 1) as u64 & !((alignment - 1) as u64),
        align::is_power_of_two(alignment) ==> r == align::round_up(
            offset as int,
            alignment as int,
        ),
{
    align::align_up(offset, alignment)
}

/// A buffer's place in the arena.
#[derive(Debug, Clone, Copy, PartialEq, Eq, Structural)]
pub struct Buffer {
    pub offset: u64,
    pub size: u64,
}

/// Where the next allocation starts when `used` bytes are used.
pub open spec fn start_at(used: int) -> int {
    align::round_up(used, ALIGNMENT as int)
}

/// Bytes used after the first `k` of the given sizes have been allocated.
pub open spec fn end_after(used: int, sizes: Seq<u64>, k: nat) -> int
    decreases k,
{
    if k == 0 {
        used
    } else {
        start_at(end_after(used, sizes, (k - 1) as nat)) + sizes[k - 1]
    }
}

/// The regions by name after the first `k` of the given sizes have been
/// allocated under the given names, behind `used` bytes.
pub open spec fn regions_after(
    regions: Map<Seq<char>, (u64, u64)>,
    used: int,
    names: Seq<Seq<char>>,
    sizes: Seq<u64>,
    k: nat,
) -> Map<Seq<char>, (u64, u64)>
    decreases k,
{
    if k == 0 {
        regions
    } else {
        regions_after(regions, used, names, sizes, (k - 1) as nat).insert(
            names[k - 1],
            (start_at(end_after(used, sizes, (k - 1) as nat)) as u64, sizes[k - 1]),
        )
    }
}

/// The texts of a list of names.
pub open spec fn texts(names: Seq<&'static str>) -> Seq<Seq<char>> {
    Seq::new(names.len(), |i: int| names[i]@)
}

/// The first of the sizes that does not fit in `total` bytes is the one at `k`.
pub open spec fn first_misfit(used: int, total: int, sizes: Seq<u64>, k: int) -> bool {
    &&& 0 <= k < sizes.len()
    &&& forall|j: nat| j <= k ==> #[trigger] end_after(used, sizes, j) <= total
    &&& end_after(used, sizes, (k + 1) as nat) > total
}

/// `size` bytes do not fit behind `used` of `total` ones.
pub open spec fn is_out_of_memory(e: Error, used: int, total: int, size: u64) -> bool {
    e matches Error::OutOfMemory { needed, available } && needed == size && available == (
    if start_at(used) <= total {
        total - start_at(used)
    } else {
        0
    })
}

/// Named regions of one block of memory, each at a multiple of the alignment.
pub struct Arena {
    total_size: u64,
    offsets: StringHashMap<(u64, u64)>,
    next_offset: u64,
}

/// The regions by name: offset and size.
impl View for Arena {
    type V = Map<Seq<char>, (u64, u64)>;

    closed spec fn view(&self) -> Map<Seq<char>, (u64, u64)> {
        self.offsets@
    }
}

/// Two regions share no byte.
pub open spec fn disjoint(a: (u64, u64), b: (u64, u64)) -> bool {
    a.0 + a.1 <= b.0 || b.0 + b.1 <= a.0
}

impl Arena {
    /// Bytes in the block.
    pub closed spec fn total(&self) -> int {
        self.total_size as int
    }

    /// Bytes used so far, padding included.
    pub closed spec fn used(&self) -> int {
        self.next_offset as int
    }

    /// Every region starts at a multiple of the alignment and lies in the used
    /// part, and regions with different names are disjoint.
    pub closed spec fn well_formed(&self) -> bool {
        &&& self.next_offset <= self.total_size
        &&& self.total_size + ALIGNMENT <= u64::MAX
        &&& forall|n: Seq<char>| #[trigger]
            self@.contains_key(n) ==> self@[n].0 % ALIGNMENT == 0 && self@[n].0 + self@[n].1
                <= self.next_offset
        &&& forall|m: Seq<char>, n: Seq<char>|
            self@.contains_key(m) && self@.contains_key(n) && m != n ==> disjoint(
                #[trigger] self@[m],
                #[trigger] self@[n],
            )
    }

    /// An arena over `size` bytes.
    pub fn new(size: u64) -> (r: Self)
        requires
            size + ALIGNMENT <= u64::MAX,
        ensures
            r.well_formed(),
            r.total() == size,
            r.used() == 0,
            r@ == Map::<Seq<char>, (u64, u64)>::empty(),
    {
        Arena { total_size: size, offsets: StringHashMap::new(), next_offset: 0 }
    }

    /// Allocates `size` bytes under `name` and returns their offset. The name
    /// then stands for the new region, also where it stood for another one.
    pub fn allocate(&mut self, name: &str, size: u64) -> (r: Result<u64, Error>)
        requires
            old(self).well_formed(),
        ensures
            final(self).well_formed(),
            final(self).total() == old(self).total(),
            match r {
                Ok(offset) => {
                    &&& offset == start_at(old(self).used())
                    &&& offset + size <= old(self).total()
                    &&& final(self).used() == offset + size
                    &&& final(self)@ == old(self)@.insert(name@, (offset, size))
                },
                Err(e) => {
                    &&& start_at(old(self).used()) + size > old(self).total()
                    &&& is_out_of_memory(e, old(self).used(), old(self).total(), size)
                    &&& *final(self) == *old(self)
                },
            },
    {
        proof {
            assert(align::is_power_of_two(ALIGNMENT)) by {
                assert(128u64 & 127u64 == 0) by (bit_vector);
            }
            align::lemma_round_up(self.next_offset as int, ALIGNMENT as int);
        }
        let offset: u64 = align_up(self.next_offset, ALIGNMENT);
        if offset > self.total_size {
            return Err(Error::OutOfMemory { needed: size, available: 0 });
        }
        let available: u64 = self.total_size - offset;
        if size > available {
            return Err(Error::OutOfMemory { needed: size, available });
        }
        self.offsets.insert(name.to_owned(), (offset, size));
        self.next_offset = offset + size;
        proof {
            assert(offset as int % 128 == 0);
            assert forall|n: Seq<char>| #[trigger] self@.contains_key(n) implies self@[n].0
                % ALIGNMENT == 0 && self@[n].0 + self@[n].1 <= self.next_offset by {
                if n != name@ {
                    assert(old(self)@.contains_key(n));
                }
            }
            assert forall|m: Seq<char>, n: Seq<char>|
                self@.contains_key(m) && self@.contains_key(n) && m != n implies disjoint(
                #[trigger] self@[m],
                #[trigger] self@[n],
            ) by {
                if m != name@ {
                    assert(old(self)@.contains_key(m));
                }
                if n != name@ {
                    assert(old(self)@.contains_key(n));
                }
                if m != name@ && n != name@ {
                    assert(disjoint(old(self)@[m], old(self)@[n]));
                }
            }
        }
        Ok(offset)
    }

    /// Where the region called `name` starts, for a buffer that is bound to it.
    pub fn bind_offset(&self, name: &str) -> (r: Result<u64, Error>)
        ensures
            match r {
                Ok(offset) => self@.contains_key(name@) && offset == self@[name@].0,
                Err(e) => {
                    &&& !self@.contains_key(name@)
                    &&& e matches Error::Api(m) && m@ == "arena: no allocation for '"@ + name@
                        + "'"@
                },
            },
    {
        match self.offsets.get(name) {
            Some(region) => Ok(region.0),
            None => {
                let mut m: String = "arena: no allocation for '".to_owned();
                m.append(name);
                m.append("'");
                Err(Error::Api(m))
            },
        }
    }

    /// Allocates the given sizes in order, up to the first that does not fit.
    pub fn allocate_all(&mut self, names: &Vec<&'static str>, sizes: &Vec<u64>) -> (r: Result<
        Vec<u64>,
        Error,
    >)
        requires
            old(self).well_formed(),
            names@.len() == sizes@.len(),
        ensures
            final(self).well_formed(),
            final(self).total() == old(self).total(),
            match r {
                Ok(offsets) => {
                    &&& offsets@.len() == sizes@.len()
                    &&& forall|k: int|
                        0 <= k < sizes@.len() ==> #[trigger] offsets@[k] == start_at(
                            end_after(old(self).used(), sizes@, k as nat),
                        )
                    &&& final(self).used() == end_after(
                        old(self).used(),
                        sizes@,
                        sizes@.len(),
                    )
                    &&& forall|k: nat|
                        k <= sizes@.len() ==> #[trigger] end_after(
                            old(self).used(),
                            sizes@,
                            k,
                        ) <= old(self).total()
                    &&& final(self)@ == regions_after(
                        old(self)@,
                        old(self).used(),
                        texts(names@),
                        sizes@,
                        sizes@.len(),
                    )
                },
                Err(e) => exists|k: int|
                    {
                        &&& #[trigger] first_misfit(
                            old(self).used(),
                            old(self).total(),
                            sizes@,
                            k,
                        )
                        &&& is_out_of_memory(
                            e,
                            end_after(old(self).used(), sizes@, k as nat),
                            old(self).total(),
                            sizes@[k],
                        )
                        &&& final(self).used() == end_after(old(self).used(), sizes@, k as nat)
                        &&& final(self)@ == regions_after(
                            old(self)@,
                            old(self).used(),
                            texts(names@),
                            sizes@,
                            k as nat,
                        )
                    },
            },
    {
        let ghost used = self.used();
        let mut offsets: Vec<u64> = Vec::new();
        let mut i: usize = 0;
        while i < sizes.len()
            invariant
                i <= sizes@.len(),
                names@.len() == sizes@.len(),
                used == old(self).used(),
                self.well_formed(),
                self.total() == old(self).total(),
                self.used() == end_after(used, sizes@, i as nat),
                self.used() <= self.total(),
                self@ == regions_after(old(self)@, used, texts(names@), sizes@, i as nat),
                offsets@.len() == i,
                forall|k: int|
                    0 <= k < i ==> #[trigger] offsets@[k] == start_at(
                        end_after(used, sizes@, k as nat),
                    ),
                forall|k: nat|
                    k <= i ==> #[trigger] end_after(used, sizes@, k) <= self.total(),
            decreases sizes.len() - i,
        {
            assert(end_after(used, sizes@, (i + 1) as nat) == start_at(
                end_after(used, sizes@, i as nat),
            ) + sizes@[i as int]);
            match self.allocate(names[i], sizes[i]) {
                Ok(offset) => {
                    offsets.push(offset);
                },
                Err(e) => {
                    assert(first_misfit(used, self.total(), sizes@, i as int));
                    return Err(e);
                },
            }
            i = i + 1;
        }
        Ok(offsets)
    }
}

/// Every buffer of the arena is 128-byte aligned, lies in the block, and
/// shares no byte with a buffer of another name.
pub proof fn law_regions_are_apart(arena: Arena, m: Seq<char>, n: Seq<char>)
    requires
        arena.well_formed(),
        arena@.contains_key(m),
        arena@.contains_key(n),
    ensures
        arena@[m].0 % 128 == 0,
        arena@[m].0 + arena@[m].1 <= arena.used() <= arena.total(),
        m != n ==> disjoint(arena@[m], arena@[n]),
{
}

} // verus!
