use ash::vk;
use qsc_render::swapchain::{
    can_present_to, choose_image_count, choose_surface_format, choose_swap_extent, next_frame,
    Extent2D, SurfaceFormat, COLOR_SPACE_SRGB_NONLINEAR, FORMAT_B8G8R8A8_SRGB, FRAMES_IN_FLIGHT,
};

fn fmt(format: vk::Format, color_space: vk::ColorSpaceKHR) -> SurfaceFormat {
    SurfaceFormat { format: format.as_raw(), color_space: color_space.as_raw() }
}

fn ext(width: u32, height: u32) -> Extent2D {
    Extent2D { width, height }
}

#[test]
fn format_constants_are_the_vulkan_ones() {
    assert_eq!(FORMAT_B8G8R8A8_SRGB, vk::Format::B8G8R8A8_SRGB.as_raw());
    assert_eq!(COLOR_SPACE_SRGB_NONLINEAR, vk::ColorSpaceKHR::SRGB_NONLINEAR.as_raw());
}

#[test]
fn preferred_surface_format_is_found() {
    let formats = vec![
        fmt(vk::Format::R8G8B8A8_UNORM, vk::ColorSpaceKHR::SRGB_NONLINEAR),
        fmt(vk::Format::B8G8R8A8_SRGB, vk::ColorSpaceKHR::DISPLAY_P3_NONLINEAR_EXT),
        fmt(vk::Format::B8G8R8A8_SRGB, vk::ColorSpaceKHR::SRGB_NONLINEAR),
        fmt(vk::Format::B8G8R8A8_SRGB, vk::ColorSpaceKHR::SRGB_NONLINEAR),
    ];
    assert_eq!(choose_surface_format(&formats), 2);
}

#[test]
fn first_surface_format_is_the_fallback() {
    let formats = vec![
        fmt(vk::Format::R8G8B8A8_UNORM, vk::ColorSpaceKHR::SRGB_NONLINEAR),
        fmt(vk::Format::B8G8R8A8_UNORM, vk::ColorSpaceKHR::SRGB_NONLINEAR),
    ];
    assert_eq!(choose_surface_format(&formats), 0);
}

#[test]
fn current_extent_is_kept_when_defined() {
    let r = choose_swap_extent(ext(800, 600), ext(1, 1), ext(4096, 4096), ext(1280, 720));
    assert_eq!(r, ext(800, 600));
}

#[test]
fn window_size_is_clamped_when_extent_is_undefined() {
    let undefined = ext(u32::MAX, u32::MAX);
    assert_eq!(choose_swap_extent(undefined, ext(1, 1), ext(4096, 4096), ext(1280, 720)), ext(1280, 720));
    assert_eq!(choose_swap_extent(undefined, ext(1, 1), ext(1024, 512), ext(1280, 720)), ext(1024, 512));
    assert_eq!(choose_swap_extent(undefined, ext(300, 200), ext(1024, 512), ext(0, 100)), ext(300, 200));
    assert_eq!(choose_swap_extent(undefined, ext(300, 200), ext(1024, 512), ext(500, 5000)), ext(500, 512));
}

#[test]
fn image_count_is_frames_in_flight_within_limits() {
    assert_eq!(FRAMES_IN_FLIGHT, 2);
    assert_eq!(choose_image_count(1, 0), 2);
    assert_eq!(choose_image_count(2, 8), 2);
    assert_eq!(choose_image_count(3, 0), 3);
    assert_eq!(choose_image_count(3, 8), 3);
    assert_eq!(choose_image_count(1, 1), 1);
}

#[test]
fn minimized_window_is_not_presented_to() {
    assert!(can_present_to(1280, 720));
    assert!(can_present_to(1, 1));
    assert!(!can_present_to(0, 720));
    assert!(!can_present_to(1280, 0));
    assert!(!can_present_to(0, 0));
}

#[test]
fn frames_in_flight_alternate() {
    assert_eq!(next_frame(0), 1);
    assert_eq!(next_frame(1), 0);
    let mut frame = 0;
    for _ in 0..10 {
        frame = next_frame(frame);
        assert!(frame < FRAMES_IN_FLIGHT as usize);
    }
    assert_eq!(frame, 0);
    assert_eq!(next_frame(6), 1);
}
