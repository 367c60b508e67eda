use ash::vk;
use qsc_render::device::{
    check_queue_support, find_memory_type, find_queue_families, select_physical_device,
    supports_all_extensions, unique_queue_families, DeviceError, QueueFamilyIndices,
    DEVICE_TYPE_DISCRETE_GPU, DEVICE_TYPE_INTEGRATED_GPU, QUEUE_COMPUTE, QUEUE_GRAPHICS,
    QUEUE_TRANSFER,
};

const G: u32 = QUEUE_GRAPHICS;
const C: u32 = QUEUE_COMPUTE;
const T: u32 = QUEUE_TRANSFER;

#[test]
fn flags_are_the_vulkan_ones() {
    assert_eq!(QUEUE_GRAPHICS, vk::QueueFlags::GRAPHICS.as_raw());
    assert_eq!(QUEUE_COMPUTE, vk::QueueFlags::COMPUTE.as_raw());
    assert_eq!(QUEUE_TRANSFER, vk::QueueFlags::TRANSFER.as_raw());
    assert_eq!(DEVICE_TYPE_INTEGRATED_GPU, vk::PhysicalDeviceType::INTEGRATED_GPU.as_raw());
    assert_eq!(DEVICE_TYPE_DISCRETE_GPU, vk::PhysicalDeviceType::DISCRETE_GPU.as_raw());
}

#[test]
fn one_family_serves_everything() {
    let r = find_queue_families(&vec![G | C | T]);
    assert_eq!(r, Ok(QueueFamilyIndices { graphics: 0, compute: 0, transfer: 0 }));
}

#[test]
fn first_family_with_each_flag_is_taken() {
    let families = vec![T, C | T, G | C | T, G];
    let r = find_queue_families(&families);
    assert_eq!(r, Ok(QueueFamilyIndices { graphics: 2, compute: 1, transfer: 0 }));
}

#[test]
fn other_flags_do_not_hide_a_family() {
    // sparse binding (8) and protected (16) bits beside the wanted ones
    let families = vec![8, G | 16, C | 8 | 16, T | 8];
    let r = find_queue_families(&families);
    assert_eq!(r, Ok(QueueFamilyIndices { graphics: 1, compute: 2, transfer: 3 }));
}

#[test]
fn missing_queue_families_are_reported_in_order() {
    assert_eq!(find_queue_families(&vec![]), Err(DeviceError::NoGraphicsQueue));
    assert_eq!(find_queue_families(&vec![C | T]), Err(DeviceError::NoGraphicsQueue));
    assert_eq!(find_queue_families(&vec![G, T]), Err(DeviceError::NoComputeQueue));
    assert_eq!(find_queue_families(&vec![G | C]), Err(DeviceError::NoTransferQueue));
}

#[test]
fn queue_support_needs_all_three() {
    assert_eq!(check_queue_support(&vec![G, C, T]), Ok(()));
    assert_eq!(check_queue_support(&vec![G | C | T]), Ok(()));
    assert_eq!(check_queue_support(&vec![G, C]), Err(DeviceError::MissingQueueFamilies));
    assert_eq!(check_queue_support(&vec![]), Err(DeviceError::MissingQueueFamilies));
}

#[test]
fn no_gpu_is_an_error() {
    assert_eq!(select_physical_device(&vec![]), Err(DeviceError::NoDevice));
}

#[test]
fn discrete_gpu_is_preferred() {
    let cpu = vk::PhysicalDeviceType::CPU.as_raw();
    let other = vk::PhysicalDeviceType::OTHER.as_raw();
    let types = vec![cpu, DEVICE_TYPE_INTEGRATED_GPU, DEVICE_TYPE_DISCRETE_GPU, DEVICE_TYPE_INTEGRATED_GPU, other];
    assert_eq!(select_physical_device(&types), Ok(2));
    assert_eq!(select_physical_device(&vec![cpu, DEVICE_TYPE_INTEGRATED_GPU, cpu]), Ok(1));
    assert_eq!(select_physical_device(&vec![cpu]), Ok(0));
}

#[test]
fn the_last_of_equally_good_gpus_is_taken() {
    let cpu = vk::PhysicalDeviceType::CPU.as_raw();
    assert_eq!(select_physical_device(&vec![DEVICE_TYPE_DISCRETE_GPU, DEVICE_TYPE_DISCRETE_GPU, cpu]), Ok(1));
    assert_eq!(select_physical_device(&vec![cpu, cpu, cpu]), Ok(2));
}

#[test]
fn extensions_are_matched_by_name() {
    let swapchain = b"VK_KHR_swapchain".to_vec();
    let barycentric = b"VK_KHR_fragment_shader_barycentric".to_vec();
    let other = b"VK_KHR_maintenance1".to_vec();
    let required = vec![swapchain.clone(), barycentric.clone()];
    assert!(supports_all_extensions(&required, &vec![other.clone(), barycentric.clone(), swapchain.clone()]));
    assert!(!supports_all_extensions(&required, &vec![other.clone(), swapchain.clone()]));
    assert!(!supports_all_extensions(&required, &vec![b"VK_KHR_swapchai".to_vec(), barycentric.clone()]));
    assert!(supports_all_extensions(&vec![], &vec![]));
    assert!(!supports_all_extensions(&required, &vec![]));
}

#[test]
fn ash_extension_names_are_supported_when_listed() {
    let required = vec![
        ash::khr::swapchain::NAME.to_bytes().to_vec(),
        ash::khr::fragment_shader_barycentric::NAME.to_bytes().to_vec(),
    ];
    let supported = vec![
        ash::khr::fragment_shader_barycentric::NAME.to_bytes().to_vec(),
        ash::khr::swapchain::NAME.to_bytes().to_vec(),
    ];
    assert!(supports_all_extensions(&required, &supported));
}

#[test]
fn shared_families_are_listed_once() {
    let q = |g, c, t| QueueFamilyIndices { graphics: g, compute: c, transfer: t };
    assert_eq!(unique_queue_families(&q(0, 0, 0)), vec![0]);
    assert_eq!(unique_queue_families(&q(0, 1, 0)), vec![0, 1]);
    assert_eq!(unique_queue_families(&q(0, 0, 2)), vec![0, 2]);
    assert_eq!(unique_queue_families(&q(2, 1, 1)), vec![2, 1]);
    assert_eq!(unique_queue_families(&q(0, 1, 2)), vec![0, 1, 2]);
}

#[test]
fn memory_type_must_pass_filter_and_properties() {
    let device_local = vk::MemoryPropertyFlags::DEVICE_LOCAL.as_raw();
    let host_visible = vk::MemoryPropertyFlags::HOST_VISIBLE.as_raw();
    let host_coherent = vk::MemoryPropertyFlags::HOST_COHERENT.as_raw();
    let types = vec![device_local, host_visible, host_visible | host_coherent, device_local | host_visible];
    assert_eq!(find_memory_type(0b1111, &types, device_local), Some(0));
    assert_eq!(find_memory_type(0b1110, &types, device_local), Some(3));
    assert_eq!(find_memory_type(0b1111, &types, host_visible | host_coherent), Some(2));
    assert_eq!(find_memory_type(0b0011, &types, host_visible | host_coherent), None);
    assert_eq!(find_memory_type(0, &types, 0), None);
    assert_eq!(find_memory_type(0b1000, &types, 0), Some(3));
    assert_eq!(find_memory_type(u32::MAX, &vec![], 0), None);
}

#[test]
fn memory_type_filter_reaches_the_last_of_32_types() {
    let mut types = vec![0u32; 32];
    types[31] = vk::MemoryPropertyFlags::DEVICE_LOCAL.as_raw();
    assert_eq!(find_memory_type(1 << 31, &types, vk::MemoryPropertyFlags::DEVICE_LOCAL.as_raw()), Some(31));
    assert_eq!(find_memory_type(u32::MAX >> 1, &types, vk::MemoryPropertyFlags::DEVICE_LOCAL.as_raw()), None);
}
