//! Which device is taken, and which of its memories and queues.

use crate::vulkan;
use crate::vulkan::Candidate;
use vstd::prelude::*;

verus! {

/// A memory type that the graphics unit owns, and that the host can map and sees
/// without flushing.
pub open spec fn is_shared(flags: u32) -> bool {
    flags & 1 != 0 && flags & 2 != 0 && flags & 4 != 0
}

/// A queue family that runs compute shaders.
pub open spec fn computes(flags: u32) -> bool {
    flags & 2 != 0
}

proof fn lemma_flags(f: u32)
    ensures
        vulkan::has_flags(f, vulkan::MEMORY_UMA) <==> is_shared(f),
        vulkan::has_flags(f, vulkan::QUEUE_COMPUTE) <==> computes(f),
{
    assert(f & 7 == 7 <==> f & 1 != 0 && f & 2 != 0 && f & 4 != 0) by (bit_vector);
    assert(f & 2 == 2 <==> f & 2 != 0) by (bit_vector);
}

/// The memory type that is taken is the first one that is shared.
pub proof fn law_first_shared_memory_is_taken(types: Seq<u32>, i: int, j: int)
    requires
        vulkan::is_first_with(types, vulkan::MEMORY_UMA, i),
        0 <= j < types.len(),
        is_shared(types[j]),
    ensures
        0 <= i <= j,
        is_shared(types[i]),
{
    lemma_flags(types[i]);
    lemma_flags(types[j]);
}

/// The queue family that is taken is the first one that computes.
pub proof fn law_first_compute_queue_is_taken(families: Seq<u32>, i: int, j: int)
    requires
        vulkan::is_first_with(families, vulkan::QUEUE_COMPUTE, i),
        0 <= j < families.len(),
        computes(families[j]),
    ensures
        0 <= i <= j,
        computes(families[i]),
{
    lemma_flags(families[i]);
    lemma_flags(families[j]);
}

/// The memory type for a resource is one that its filter admits and that has
/// every wanted property, and no earlier one is.
pub proof fn law_first_admitted_memory_is_taken(
    types: Seq<u32>,
    filter: u32,
    wanted: u32,
    i: int,
    j: int,
    bit: u32,
)
    requires
        types.len() <= 32,
        vulkan::is_first_match(types, filter, wanted, i),
        0 <= j < i,
        bit < 32,
    ensures
        (filter >> (i as u32)) & 1 == 1,
        (wanted >> bit) & 1 == 1 ==> (types[i] >> bit) & 1 == 1,
        (filter >> (j as u32)) & 1 == 1 ==> wanted & !types[j] != 0,
{
    let a = i as u32;
    let b = j as u32;
    let have = types[i];
    let other = types[j];
    assert(filter & (1u32 << a) != 0 ==> (filter >> a) & 1 == 1) by (bit_vector)
        requires
            a < 32,
    ;
    assert(have & wanted == wanted && (wanted >> bit) & 1 == 1 ==> (have >> bit) & 1 == 1)
        by (bit_vector)
        requires
            bit < 32,
    ;
    assert((filter >> b) & 1 == 1 ==> filter & (1u32 << b) != 0) by (bit_vector)
        requires
            b < 32,
    ;
    assert(other & wanted != wanted ==> wanted & !other != 0) by (bit_vector);
}

/// A device suits that has a shared memory and a queue that computes.
pub proof fn law_suitable_devices(d: Candidate, i: int, j: int)
    ensures
        0 <= i < d.memory_types@.len() && 0 <= j < d.queue_families@.len() && is_shared(
            d.memory_types@[i],
        ) && computes(d.queue_families@[j]) ==> d.suits(),
        d.suits() ==> exists|a: int, b: int|
            0 <= a < d.memory_types@.len() && 0 <= b < d.queue_families@.len() && is_shared(
                #[trigger] d.memory_types@[a],
            ) && computes(#[trigger] d.queue_families@[b]),
{
    lemma_flags(d.memory_types@[i]);
    lemma_flags(d.queue_families@[j]);
    if d.suits() {
        let a = choose|a: int|
            0 <= a < d.memory_types@.len() && vulkan::has_flags(
                #[trigger] d.memory_types@[a],
                vulkan::MEMORY_UMA,
            );
        let b = choose|b: int|
            0 <= b < d.queue_families@.len() && vulkan::has_flags(
                #[trigger] d.queue_families@[b],
                vulkan::QUEUE_COMPUTE,
            );
        lemma_flags(d.memory_types@[a]);
        lemma_flags(d.queue_families@[b]);
    }
}

/// The name of a device is what stands before the NUL characters at its end.
pub proof fn law_name_ends_before_nuls(s: Seq<char>)
    ensures
        ({
            let r = vulkan::without_nuls(s);
            &&& r.len() <= s.len()
            &&& forall|i: int| 0 <= i < r.len() ==> #[trigger] r[i] == s[i]
            &&& forall|i: int| r.len() <= i < s.len() ==> #[trigger] s[i] == '\0'
            &&& r.len() > 0 ==> r.last() != '\0'
        }),
    decreases s.len(),
{
    if s.len() > 0 && s.last() == '\0' {
        let t = s.drop_last();
        law_name_ends_before_nuls(t);
        let r = vulkan::without_nuls(s);
        assert forall|i: int| r.len() <= i < s.len() implies #[trigger] s[i] == '\0' by {
            if i < t.len() {
                assert(t[i] == s[i]);
            }
        }
        assert forall|i: int| 0 <= i < r.len() implies #[trigger] r[i] == s[i] by {
            assert(t[i] == s[i]);
        }
    }
}

} // verus!
