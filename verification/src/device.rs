//! Choices made on what the Vulkan driver reports about the GPUs: which GPU
//! to use, which queue families serve graphics, compute and transfer work,
//! and which memory type holds a buffer.

use vstd::prelude::*;

verus! {

/// Queue family flag of queues that take graphics work (Vulkan's
/// `VK_QUEUE_GRAPHICS_BIT`).
pub const QUEUE_GRAPHICS: u32 = 0x1;

/// Queue family flag of queues that take compute work (Vulkan's
/// `VK_QUEUE_COMPUTE_BIT`).
pub const QUEUE_COMPUTE: u32 = 0x2;

/// Queue family flag of queues that take transfer work (Vulkan's
/// `VK_QUEUE_TRANSFER_BIT`).
pub const QUEUE_TRANSFER: u32 = 0x4;

/// Device type of an integrated GPU (Vulkan's
/// `VK_PHYSICAL_DEVICE_TYPE_INTEGRATED_GPU`).
pub const DEVICE_TYPE_INTEGRATED_GPU: i32 = 1;

/// Device type of a discrete GPU (Vulkan's
/// `VK_PHYSICAL_DEVICE_TYPE_DISCRETE_GPU`).
pub const DEVICE_TYPE_DISCRETE_GPU: i32 = 2;

/// Indices of the queue families the renderer submits its work to.
#[derive(Clone, Copy, Debug, PartialEq, Eq, Structural)]
pub struct QueueFamilyIndices {
    pub graphics: u32,
    pub compute: u32,
    pub transfer: u32,
}

/// Why no usable GPU, queue family or memory type was found.
#[derive(Clone, Copy, Debug, PartialEq, Eq, Structural)]
pub enum DeviceError {
    /// No Vulkan capable GPU was found.
    NoDevice,
    /// The GPU lacks one of the graphics, compute and transfer queue families.
    MissingQueueFamilies,
    /// No queue family takes graphics work.
    NoGraphicsQueue,
    /// No queue family takes compute work.
    NoComputeQueue,
    /// No queue family takes transfer work.
    NoTransferQueue,
}

/// Whether the flag set `flags` holds every flag of `wanted`.
pub open spec fn has_flags(flags: u32, wanted: u32) -> bool {
    flags & wanted == wanted
}

/// Whether `i` is the first queue family with the flags `wanted`.
pub open spec fn is_first_with(families: Seq<u32>, wanted: u32, i: int) -> bool {
    &&& 0 <= i < families.len()
    &&& has_flags(families[i], wanted)
    &&& forall|j: int| 0 <= j < i ==> !has_flags(#[trigger] families[j], wanted)
}

/// Whether some queue family has the flags `wanted`.
pub open spec fn some_with(families: Seq<u32>, wanted: u32) -> bool {
    exists|i: int| 0 <= i < families.len() && has_flags(#[trigger] families[i], wanted)
}

/// The first queue family among `0 .. n` with the flags `wanted`, if any.
pub open spec fn first_among(families: Seq<u32>, wanted: u32, n: int, found: Option<u32>) -> bool {
    match found {
        Some(i) => i < n && is_first_with(families, wanted, i as int),
        None => forall|j: int| 0 <= j < n ==> !has_flags(#[trigger] families[j], wanted),
    }
}

/// Finds the first queue family for graphics, for compute and for transfer
/// work, given the flags of every queue family of the GPU.
pub fn find_queue_families(families: &Vec<u32>) -> (r: Result<QueueFamilyIndices, DeviceError>)
    requires
        families@.len() <= u32::MAX,
    ensures
        r matches Ok(q) ==> {
            &&& is_first_with(families@, QUEUE_GRAPHICS, q.graphics as int)
            &&& is_first_with(families@, QUEUE_COMPUTE, q.compute as int)
            &&& is_first_with(families@, QUEUE_TRANSFER, q.transfer as int)
        },
        r is Ok <==> some_with(families@, QUEUE_GRAPHICS) && some_with(families@, QUEUE_COMPUTE)
            && some_with(families@, QUEUE_TRANSFER),
        r == Err::<QueueFamilyIndices, DeviceError>(DeviceError::NoGraphicsQueue) <==> !some_with(
            families@,
            QUEUE_GRAPHICS,
        ),
        r == Err::<QueueFamilyIndices, DeviceError>(DeviceError::NoComputeQueue) <==> some_with(
            families@,
            QUEUE_GRAPHICS,
        ) && !some_with(families@, QUEUE_COMPUTE),
        r == Err::<QueueFamilyIndices, DeviceError>(DeviceError::NoTransferQueue) <==> some_with(
            families@,
            QUEUE_GRAPHICS,
        ) && some_with(families@, QUEUE_COMPUTE) && !some_with(families@, QUEUE_TRANSFER),
{
    let mut graphics: Option<u32> = None;
    let mut compute: Option<u32> = None;
    let mut transfer: Option<u32> = None;
    let mut i: usize = 0;
    while i < families.len()
        invariant
            i <= families@.len(),
            families@.len() <= u32::MAX,
            first_among(families@, QUEUE_GRAPHICS, i as int, graphics),
            first_among(families@, QUEUE_COMPUTE, i as int, compute),
            first_among(families@, QUEUE_TRANSFER, i as int, transfer),
        decreases families@.len() - i,
    {
        let queue: u32 = families[i];
        if queue & QUEUE_GRAPHICS == QUEUE_GRAPHICS && graphics.is_none() {
            graphics = Some(i as u32);
        }
        if queue & QUEUE_COMPUTE == QUEUE_COMPUTE && compute.is_none() {
            compute = Some(i as u32);
        }
        if queue & QUEUE_TRANSFER == QUEUE_TRANSFER && transfer.is_none() {
            transfer = Some(i as u32);
        }
        i = i + 1;
    }
    let graphics = match graphics {
        Some(i) => i,
        None => return Err(DeviceError::NoGraphicsQueue),
    };
    let compute = match compute {
        Some(i) => i,
        None => return Err(DeviceError::NoComputeQueue),
    };
    let transfer = match transfer {
        Some(i) => i,
        None => return Err(DeviceError::NoTransferQueue),
    };
    Ok(QueueFamilyIndices { graphics, compute, transfer })
}

/// How much a GPU of device type `t` is preferred: discrete GPUs first,
/// then integrated ones, then anything else.
pub open spec fn device_score(t: i32) -> nat {
    if t == DEVICE_TYPE_DISCRETE_GPU {
        2
    } else if t == DEVICE_TYPE_INTEGRATED_GPU {
        1
    } else {
        0
    }
}

fn score(t: i32) -> (r: u8)
    ensures
        r as nat == device_score(t),
{
    if t == DEVICE_TYPE_DISCRETE_GPU {
        2
    } else if t == DEVICE_TYPE_INTEGRATED_GPU {
        1
    } else {
        0
    }
}

/// Picks a GPU among those of the given device types, preferring discrete
/// GPUs, then integrated ones, and among equally preferred GPUs the last.
pub fn select_physical_device(device_types: &Vec<i32>) -> (r: Result<usize, DeviceError>)
    ensures
        r is Err <==> device_types@.len() == 0,
        r is Err ==> r == Err::<usize, DeviceError>(DeviceError::NoDevice),
        r matches Ok(i) ==> {
            &&& i < device_types@.len()
            &&& forall|j: int|
                0 <= j < device_types@.len() ==> device_score(#[trigger] device_types@[j])
                    <= device_score(device_types@[i as int])
            &&& forall|j: int|
                i < j < device_types@.len() ==> device_score(#[trigger] device_types@[j])
                    < device_score(device_types@[i as int])
        },
        r matches Ok(i) ==> (device_types@.contains(DEVICE_TYPE_DISCRETE_GPU) ==> {
            &&& device_types@[i as int] == DEVICE_TYPE_DISCRETE_GPU
            &&& forall|j: int| i < j < device_types@.len() ==> #[trigger] device_types@[j] != DEVICE_TYPE_DISCRETE_GPU
        }),
        r matches Ok(i) ==> (!device_types@.contains(DEVICE_TYPE_DISCRETE_GPU) && device_types@.contains(
            DEVICE_TYPE_INTEGRATED_GPU,
        ) ==> {
            &&& device_types@[i as int] == DEVICE_TYPE_INTEGRATED_GPU
            &&& forall|j: int| i < j < device_types@.len() ==> #[trigger] device_types@[j] != DEVICE_TYPE_INTEGRATED_GPU
        }),
        r matches Ok(i) ==> (!device_types@.contains(DEVICE_TYPE_DISCRETE_GPU) && !device_types@.contains(
            DEVICE_TYPE_INTEGRATED_GPU,
        ) ==> i == device_types@.len() - 1),
{
    if device_types.len() == 0 {
        return Err(DeviceError::NoDevice);
    }
    // prefer discrete, fall back to anything available
    let mut best: usize = 0;
    let mut best_score: u8 = score(device_types[0]);
    let mut i: usize = 1;
    while i < device_types.len()
        invariant
            1 <= i <= device_types@.len(),
            best < i,
            best_score as nat == device_score(device_types@[best as int]),
            forall|j: int| 0 <= j < i ==> device_score(#[trigger] device_types@[j]) <= best_score,
            forall|j: int| best < j < i ==> device_score(#[trigger] device_types@[j]) < best_score,
        decreases device_types@.len() - i,
    {
        let sc = score(device_types[i]);
        if sc >= best_score {
            best = i;
            best_score = sc;
        }
        i = i + 1;
    }
    proof {
        if device_types@.contains(DEVICE_TYPE_DISCRETE_GPU) {
            let j = choose|j: int| 0 <= j < device_types@.len() && device_types@[j] == DEVICE_TYPE_DISCRETE_GPU;
            assert(device_score(device_types@[j]) == 2);
        } else if device_types@.contains(DEVICE_TYPE_INTEGRATED_GPU) {
            let j = choose|j: int| 0 <= j < device_types@.len() && device_types@[j] == DEVICE_TYPE_INTEGRATED_GPU;
            assert(device_score(device_types@[j]) == 1);
            assert forall|k: int| 0 <= k < device_types@.len() implies device_score(#[trigger] device_types@[k]) <= 1 by {
                assert(device_types@[k] != DEVICE_TYPE_DISCRETE_GPU);
            }
        } else {
            assert forall|k: int| 0 <= k < device_types@.len() implies device_score(#[trigger] device_types@[k]) == 0 by {
                assert(device_types@[k] != DEVICE_TYPE_DISCRETE_GPU);
                assert(device_types@[k] != DEVICE_TYPE_INTEGRATED_GPU);
            }
            if best < device_types@.len() - 1 {
                assert(device_score(device_types@[device_types@.len() - 1]) == 0);
            }
        }
    }
    Ok(best)
}

/// Whether the byte strings `a` and `b` are equal.
fn bytes_equal(a: &Vec<u8>, b: &Vec<u8>) -> (r: bool)
    ensures
        r == (a@ == b@),
{
    if a.len() != b.len() {
        return false;
    }
    let mut i: usize = 0;
    while i < a.len()
        invariant
            a@.len() == b@.len(),
            i <= a@.len(),
            forall|j: int| 0 <= j < i ==> a@[j] == b@[j],
        decreases a@.len() - i,
    {
        if a[i] != b[i] {
            return false;
        }
        i = i + 1;
    }
    assert(a@ =~= b@);
    true
}

/// Whether every name in `required` is among the names in `supported`.
pub open spec fn all_supported(required: Seq<Seq<u8>>, supported: Seq<Seq<u8>>) -> bool {
    forall|i: int| 0 <= i < required.len() ==> supported.contains(#[trigger] required[i])
}

/// Checks that the GPU supports every required device extension, given the
/// names of the required and of the supported extensions.
pub fn supports_all_extensions(required: &Vec<Vec<u8>>, supported: &Vec<Vec<u8>>) -> (r: bool)
    ensures
        r == all_supported(required@.map_values(|v: Vec<u8>| v@), supported@.map_values(|v: Vec<u8>| v@)),
{
    let ghost req = required@.map_values(|v: Vec<u8>| v@);
    let ghost sup = supported@.map_values(|v: Vec<u8>| v@);
    let mut i: usize = 0;
    while i < required.len()
        invariant
            i <= required@.len(),
            req == required@.map_values(|v: Vec<u8>| v@),
            sup == supported@.map_values(|v: Vec<u8>| v@),
            forall|k: int| 0 <= k < i ==> sup.contains(#[trigger] req[k]),
        decreases required@.len() - i,
    {
        let mut found = false;
        let mut j: usize = 0;
        while j < supported.len() && !found
            invariant
                i < required@.len(),
                j <= supported@.len(),
                req == required@.map_values(|v: Vec<u8>| v@),
                sup == supported@.map_values(|v: Vec<u8>| v@),
                found ==> sup.contains(req[i as int]),
                !found ==> forall|l: int| 0 <= l < j ==> sup[l] != req[i as int],
            decreases supported@.len() - j,
        {
            if bytes_equal(&supported[j], &required[i]) {
                found = true;
                assert(sup[j as int] == req[i as int]);
            }
            j = j + 1;
        }
        if !found {
            assert(!sup.contains(req[i as int]));
            return false;
        }
        i = i + 1;
    }
    true
}

/// Checks that the GPU has queue families for graphics, compute and
/// transfer work, given the flags of its queue families.
pub fn check_queue_support(families: &Vec<u32>) -> (r: Result<(), DeviceError>)
    ensures
        r is Ok <==> some_with(families@, QUEUE_GRAPHICS) && some_with(families@, QUEUE_COMPUTE)
            && some_with(families@, QUEUE_TRANSFER),
        r is Err ==> r == Err::<(), DeviceError>(DeviceError::MissingQueueFamilies),
{
    let mut has_graphics = false;
    let mut has_compute = false;
    let mut has_transfer = false;
    let mut i: usize = 0;
    while i < families.len()
        invariant
            i <= families@.len(),
            has_graphics <==> exists|j: int| 0 <= j < i && has_flags(#[trigger] families@[j], QUEUE_GRAPHICS),
            has_compute <==> exists|j: int| 0 <= j < i && has_flags(#[trigger] families@[j], QUEUE_COMPUTE),
            has_transfer <==> exists|j: int| 0 <= j < i && has_flags(#[trigger] families@[j], QUEUE_TRANSFER),
        decreases families@.len() - i,
    {
        let q: u32 = families[i];
        has_graphics = has_graphics || q & QUEUE_GRAPHICS == QUEUE_GRAPHICS;
        has_compute = has_compute || q & QUEUE_COMPUTE == QUEUE_COMPUTE;
        has_transfer = has_transfer || q & QUEUE_TRANSFER == QUEUE_TRANSFER;
        i = i + 1;
    }
    if !has_graphics || !has_compute || !has_transfer {
        return Err(DeviceError::MissingQueueFamilies);
    }
    Ok(())
}

/// The queue families to create queues on: the graphics, compute and
/// transfer families, each once, in that order.
pub fn unique_queue_families(indices: &QueueFamilyIndices) -> (r: Vec<u32>)
    ensures
        r@ == seq![indices.graphics] + (if indices.compute != indices.graphics {
            seq![indices.compute]
        } else {
            Seq::empty()
        }) + (if indices.transfer != indices.graphics && indices.transfer != indices.compute {
            seq![indices.transfer]
        } else {
            Seq::empty()
        }),
        r@.no_duplicates(),
        r@.to_set() == set![indices.graphics, indices.compute, indices.transfer],
{
    let mut unique: Vec<u32> = Vec::new();
    unique.push(indices.graphics);
    if indices.compute != indices.graphics {
        unique.push(indices.compute);
    }
    if indices.transfer != indices.graphics && indices.transfer != indices.compute {
        unique.push(indices.transfer);
    }
    proof {
        assert(unique@ =~= seq![indices.graphics] + (if indices.compute != indices.graphics {
            seq![indices.compute]
        } else {
            Seq::empty()
        }) + (if indices.transfer != indices.graphics && indices.transfer != indices.compute {
            seq![indices.transfer]
        } else {
            Seq::empty()
        }));
        assert(unique@.to_set() =~= set![indices.graphics, indices.compute, indices.transfer]) by {
            assert forall|x: u32| unique@.to_set().contains(x) <==> set![indices.graphics, indices.compute, indices.transfer].contains(x) by {
                if set![indices.graphics, indices.compute, indices.transfer].contains(x) {
                    if x == indices.graphics {
                        assert(unique@[0] == x);
                    } else if x == indices.compute {
                        assert(unique@[1] == x);
                    } else {
                        assert(unique@[unique@.len() - 1] == x);
                    }
                }
            }
        }
    }
    unique
}

/// Whether memory type `i` may hold a resource whose allowed memory types
/// are the bits of `type_filter`, and has every property in `properties`.
pub open spec fn memory_type_fits(type_filter: u32, memory_types: Seq<u32>, properties: u32, i: int) -> bool {
    &&& 0 <= i < memory_types.len()
    &&& type_filter & (1u32 << (i as u32)) != 0
    &&& has_flags(memory_types[i], properties)
}

/// Finds the first memory type index that satisfies both the type filter
/// and the required property flags, given the property flags of the GPU's
/// memory types (at most 32, as Vulkan allows).
pub fn find_memory_type(type_filter: u32, memory_types: &Vec<u32>, properties: u32) -> (r: Option<u32>)
    requires
        memory_types@.len() <= 32,
    ensures
        r matches Some(i) ==> memory_type_fits(type_filter, memory_types@, properties, i as int)
            && forall|j: int| 0 <= j < i ==> !memory_type_fits(type_filter, memory_types@, properties, j),
        r is None <==> forall|j: int|
            0 <= j < memory_types@.len() ==> !memory_type_fits(type_filter, memory_types@, properties, j),
{
    let count: u32 = memory_types.len() as u32;
    let mut i: u32 = 0;
    while i < count
        invariant
            count == memory_types@.len(),
            count <= 32,
            i <= count,
            forall|j: int| 0 <= j < i ==> !memory_type_fits(type_filter, memory_types@, properties, j),
        decreases count - i,
    {
        let type_matches = (type_filter & (1 << i)) != 0;
        let prop_matches = memory_types[i as usize] & properties == properties;
        if type_matches && prop_matches {
            assert(memory_type_fits(type_filter, memory_types@, properties, i as int));
            return Some(i);
        }
        i = i + 1;
    }
    None
}

} // verus!
