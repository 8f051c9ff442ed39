//! Choosing a device, a queue and a memory type by their capabilities.

use vstd::prelude::*;

use crate::text;

verus! {

/// Memory that is fastest for the device.
pub const MEMORY_DEVICE_LOCAL: u32 = 1;

/// Memory that the host can map.
pub const MEMORY_HOST_VISIBLE: u32 = 2;

/// Memory that the host and the device see alike without flushes.
pub const MEMORY_HOST_COHERENT: u32 = 4;

/// All three: one memory for host and device.
pub const MEMORY_UMA: u32 = MEMORY_DEVICE_LOCAL + MEMORY_HOST_VISIBLE + MEMORY_HOST_COHERENT;

/// Queues that run compute shaders.
pub const QUEUE_COMPUTE: u32 = 2;

/// `flags` holds every bit of `wanted`.
pub open spec fn has_flags(flags: u32, wanted: u32) -> bool {
    flags & wanted == wanted
}

/// The first of `all` with every wanted flag, where `filter` has its bit set.
pub open spec fn is_first_match(all: Seq<u32>, filter: u32, wanted: u32, i: int) -> bool {
    &&& 0 <= i < all.len()
    &&& filter & (1u32 << (i as u32)) != 0
    &&& has_flags(all[i], wanted)
    &&& forall|j: int|
        0 <= j < i ==> !(filter & (1u32 << (j as u32)) != 0 && has_flags(#[trigger] all[j], wanted))
}

/// The first of `all` with every wanted flag.
pub open spec fn is_first_with(all: Seq<u32>, wanted: u32, i: int) -> bool {
    &&& 0 <= i < all.len()
    &&& has_flags(all[i], wanted)
    &&& forall|j: int| 0 <= j < i ==> !has_flags(#[trigger] all[j], wanted)
}

/// None of `all` has every wanted flag.
pub open spec fn none_with(all: Seq<u32>, wanted: u32) -> bool {
    forall|j: int| 0 <= j < all.len() ==> !has_flags(#[trigger] all[j], wanted)
}

/// The first memory type that `type_filter` admits and that has the wanted
/// properties. A device has at most 32 memory types.
pub fn find_memory_type(types: &[u32], type_filter: u32, wanted: u32) -> (r: Option<u32>)
    requires
        types@.len() <= 32,
    ensures
        match r {
            Some(i) => is_first_match(types@, type_filter, wanted, i as int),
            None => forall|j: int|
                0 <= j < types@.len() ==> !(type_filter & (1u32 << (j as u32)) != 0 && has_flags(
                    #[trigger] types@[j],
                    wanted,
                )),
        },
{
    let mut i: u32 = 0;
    while (i as usize) < types.len()
        invariant
            i <= types@.len() <= 32,
            forall|j: int|
                0 <= j < i ==> !(type_filter & (1u32 << (j as u32)) != 0 && has_flags(
                    #[trigger] types@[j],
                    wanted,
                )),
        decreases types.len() - i,
    {
        if type_filter & (1u32 << i) != 0 && types[i as usize] & wanted == wanted {
            return Some(i);
        }
        i = i + 1;
    }
    None
}

fn find_flags(all: &[u32], wanted: u32) -> (r: Option<u32>)
    requires
        all@.len() <= u32::MAX,
    ensures
        match r {
            Some(i) => is_first_with(all@, wanted, i as int),
            None => none_with(all@, wanted),
        },
{
    let mut i: u32 = 0;
    while (i as usize) < all.len()
        invariant
            i <= all@.len() <= u32::MAX,
            forall|j: int| 0 <= j < i ==> !has_flags(#[trigger] all@[j], wanted),
        decreases all.len() - i,
    {
        if all[i as usize] & wanted == wanted {
            return Some(i);
        }
        i = i + 1;
    }
    None
}

/// The first memory type that host and device share, if there is one.
pub fn find_uma_memory_type(types: &[u32]) -> (r: Option<u32>)
    requires
        types@.len() <= u32::MAX,
    ensures
        match r {
            Some(i) => is_first_with(types@, MEMORY_UMA, i as int),
            None => none_with(types@, MEMORY_UMA),
        },
{
    find_flags(types, MEMORY_UMA)
}

/// The first queue family that runs compute shaders, if there is one.
pub fn find_compute_queue_family(families: &[u32]) -> (r: Option<u32>)
    requires
        families@.len() <= u32::MAX,
    ensures
        match r {
            Some(i) => is_first_with(families@, QUEUE_COMPUTE, i as int),
            None => none_with(families@, QUEUE_COMPUTE),
        },
{
    find_flags(families, QUEUE_COMPUTE)
}

/// What a physical device offers: the property flags of its memory types and
/// the capability flags of its queue families.
pub struct Candidate {
    pub memory_types: Vec<u32>,
    pub queue_families: Vec<u32>,
}

impl Candidate {
    /// The device has shared memory and a compute queue.
    pub open spec fn suits(&self) -> bool {
        !none_with(self.memory_types@, MEMORY_UMA) && !none_with(
            self.queue_families@,
            QUEUE_COMPUTE,
        )
    }

    pub open spec fn well_formed(&self) -> bool {
        self.memory_types@.len() <= u32::MAX && self.queue_families@.len() <= u32::MAX
    }
}

/// A device to use, with its memory type and queue family.
#[derive(Debug, Clone, Copy, PartialEq, Eq, Structural)]
pub struct Selection {
    pub device: usize,
    pub uma_memory_type: u32,
    pub queue_family: u32,
}

/// Why no device can be used.
#[derive(Debug, Clone, Copy, PartialEq, Eq, Structural)]
pub enum SelectError {
    NoDevice,
    NoUma,
}

impl SelectError {
    pub open spec fn text(&self) -> Seq<char> {
        match self {
            SelectError::NoDevice => "No Vulkan physical devices found"@,
            SelectError::NoUma =>
                "No device with UMA memory (DEVICE_LOCAL | HOST_VISIBLE | HOST_COHERENT) found."@,
        }
    }

    pub fn message(&self) -> (r: String)
        ensures
            r@ == self.text(),
    {
        match self {
            SelectError::NoDevice => "No Vulkan physical devices found".to_owned(),
            SelectError::NoUma =>
                "No device with UMA memory (DEVICE_LOCAL | HOST_VISIBLE | HOST_COHERENT) found.".to_owned(),
        }
    }
}

/// The first device with shared memory and a compute queue.
pub fn select_device(devices: &[Candidate]) -> (r: Result<Selection, SelectError>)
    requires
        forall|i: int| 0 <= i < devices@.len() ==> (#[trigger] devices@[i]).well_formed(),
    ensures
        match r {
            Ok(s) => {
                &&& s.device < devices@.len()
                &&& is_first_with(
                    devices@[s.device as int].memory_types@,
                    MEMORY_UMA,
                    s.uma_memory_type as int,
                )
                &&& is_first_with(
                    devices@[s.device as int].queue_families@,
                    QUEUE_COMPUTE,
                    s.queue_family as int,
                )
                &&& forall|j: int| 0 <= j < s.device ==> !(#[trigger] devices@[j]).suits()
            },
            Err(SelectError::NoDevice) => devices@.len() == 0,
            Err(SelectError::NoUma) => devices@.len() > 0 && forall|j: int|
                0 <= j < devices@.len() ==> !(#[trigger] devices@[j]).suits(),
        },
{
    if devices.len() == 0 {
        return Err(SelectError::NoDevice);
    }
    let mut i: usize = 0;
    while i < devices.len()
        invariant
            i <= devices@.len(),
            forall|j: int| 0 <= j < devices@.len() ==> (#[trigger] devices@[j]).well_formed(),
            forall|j: int| 0 <= j < i ==> !(#[trigger] devices@[j]).suits(),
        decreases devices.len() - i,
    {
        assert(devices@[i as int].well_formed());
        let uma: Option<u32> = find_uma_memory_type(devices[i].memory_types.as_slice());
        let queue: Option<u32> = find_compute_queue_family(devices[i].queue_families.as_slice());
        match (uma, queue) {
            (Some(uma_memory_type), Some(queue_family)) => {
                return Ok(Selection { device: i, uma_memory_type, queue_family });
            },
            _ => {},
        }
        i = i + 1;
    }
    Err(SelectError::NoUma)
}

/// `ash::vk::api_version_variant` takes the top three bits of a version number.
pub assume_specification [ ash::vk::api_version_variant ](version: u32) -> (r: u32)
    ensures
        r == version >> 29,
;

/// `ash::vk::api_version_major` takes the seven bits from bit 22 on.
pub assume_specification [ ash::vk::api_version_major ](version: u32) -> (r: u32)
    ensures
        r == (version >> 22) & 0x7f,
;

/// `ash::vk::api_version_minor` takes the ten bits from bit 12 on.
pub assume_specification [ ash::vk::api_version_minor ](version: u32) -> (r: u32)
    ensures
        r == (version >> 12) & 0x3ff,
;

/// A driver version as text: variant, major and minor number.
pub fn driver_version(version: u32) -> (r: String)
    ensures
        r@ == text::decimal((version >> 29) as nat) + "."@ + text::decimal(
            ((version >> 22) & 0x7f) as nat,
        ) + "."@ + text::decimal(((version >> 12) & 0x3ff) as nat),
{
    let mut out: String = String::new();
    text::push_decimal(&mut out, ash::vk::api_version_variant(version) as u64);
    out.append(".");
    text::push_decimal(&mut out, ash::vk::api_version_major(version) as u64);
    out.append(".");
    text::push_decimal(&mut out, ash::vk::api_version_minor(version) as u64);
    proof {
        assert(out@ =~= text::decimal((version >> 29) as nat) + "."@ + text::decimal(
            ((version >> 22) & 0x7f) as nat,
        ) + "."@ + text::decimal(((version >> 12) & 0x3ff) as nat));
    }
    out
}

/// `s` without the NUL characters at its end.
pub open spec fn without_nuls(s: Seq<char>) -> Seq<char>
    decreases s.len(),
{
    if s.len() > 0 && s.last() == '\0' {
        without_nuls(s.drop_last())
    } else {
        s
    }
}

fn trim_nuls(s: &str) -> (r: String)
    ensures
        r@ == without_nuls(s@),
{
    let chars: Vec<char> = text::to_chars(s);
    let mut n: usize = chars.len();
    assert(chars@.take(n as int) =~= chars@);
    while n > 0 && chars[n - 1] == '\0'
        invariant
            n <= chars@.len(),
            without_nuls(chars@) == without_nuls(chars@.take(n as int)),
        decreases n,
    {
        assert(chars@.take(n as int).drop_last() =~= chars@.take(n - 1));
        n = n - 1;
    }
    text::from_chars(vstd::slice::slice_subrange(chars.as_slice(), 0, n))
}

/// A device's name, from its NUL-padded bytes; bytes that are not UTF-8 are replaced.
pub fn device_name_lossy(bytes: &[u8]) -> (r: String)
    ensures
        r@ == without_nuls(text::lossy_text(bytes@)),
{
    trim_nuls(text::decode_lossy(bytes).as_str())
}

/// A device's name, from its NUL-padded bytes, or `unknown` when they are not UTF-8.
pub fn device_name(bytes: &[u8]) -> (r: String)
    ensures
        r@ == if vstd::utf8::valid_utf8(bytes@) {
            without_nuls(vstd::utf8::decode_utf8(bytes@))
        } else {
            "unknown"@
        },
{
    match text::decode_text(bytes) {
        Ok(s) => trim_nuls(s.as_str()),
        Err(_) => "unknown".to_owned(),
    }
}

} // verus!
