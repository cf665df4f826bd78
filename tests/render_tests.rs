use nxgui::color::RGBA8;
use nxgui::render::{compute_aligned_height, compute_stride, Renderer, SurfaceDesc};
use nxgui::tiling::{convert_buffers_impl, convert_buffers_inverse};

fn desc(width: u32, height: u32, log2: u32) -> SurfaceDesc {
    SurfaceDesc { width, height, color_format: 1, block_height_log2: log2 }
}

fn changed_pixels(r: &Renderer) -> Vec<(u32, u32)> {
    let mut v = Vec::new();
    for y in 0..r.get_height() {
        for x in 0..r.get_width() {
            if r.pixel(x, y) != 0 {
                v.push((x, y));
            }
        }
    }
    v
}

fn square(x0: u32, x1: u32, y0: u32, y1: u32) -> Vec<(u32, u32)> {
    let mut v = Vec::new();
    for y in y0..y1 {
        for x in x0..x1 {
            v.push((x, y));
        }
    }
    v
}

#[test]
fn stride_and_aligned_height_for_720p() {
    let stride = compute_stride(1280);
    assert_eq!(stride % 64, 0);
    assert_eq!(stride, 5120);
    assert_eq!(compute_aligned_height(720, 2), 736);
    let r = Renderer::from(&desc(1280, 720, 2));
    assert_eq!(r.get_stride(), 5120);
    assert_eq!(r.get_aligned_height(), 736);
    assert_eq!(r.buffer().len(), 5120 / 4 * 736);
    assert!(r.buffer().iter().all(|w| *w == 0));
}

#[test]
fn stride_rounds_up_to_64_bytes() {
    assert_eq!(compute_stride(1), 64);
    assert_eq!(compute_stride(16), 64);
    assert_eq!(compute_stride(17), 128);
    assert_eq!(compute_stride(0), 0);
    assert_eq!(compute_aligned_height(0, 4), 0);
    assert_eq!(compute_aligned_height(1, 0), 8);
    assert_eq!(compute_aligned_height(129, 4), 256);
}

#[test]
fn surface_validity() {
    assert!(desc(1280, 720, 4).is_valid());
    assert!(!desc(1280, 720, 6).is_valid());
    assert!(!desc(u32::MAX, 1, 0).is_valid());
}

#[test]
fn clear_fills_every_word() {
    let mut r = Renderer::from(&desc(20, 10, 0));
    let c = RGBA8::new_rgba(1, 2, 3, 4);
    r.clear(c);
    assert!(r.buffer().iter().all(|w| *w == 0x0403_0201));
}

#[test]
fn draw_clips_top_left() {
    let mut r = Renderer::from(&desc(100, 100, 2));
    r.draw(-5, -5, 10, 10, RGBA8::new_rgb(9, 9, 9));
    assert_eq!(changed_pixels(&r), square(0, 5, 0, 5));
}

#[test]
fn draw_clips_bottom_right() {
    let mut r = Renderer::from(&desc(100, 100, 2));
    r.draw(98, 98, 10, 10, RGBA8::new_rgb(9, 9, 9));
    assert_eq!(changed_pixels(&r), square(98, 100, 98, 100));
}

#[test]
fn draw_outside_touches_nothing() {
    let mut r = Renderer::from(&desc(100, 100, 2));
    r.draw(200, 200, 10, 10, RGBA8::new_rgb(9, 9, 9));
    r.draw(-20, -20, 10, 10, RGBA8::new_rgb(9, 9, 9));
    r.draw(10, 10, -5, 5, RGBA8::new_rgb(9, 9, 9));
    r.draw(i32::MAX, i32::MAX, i32::MAX, i32::MAX, RGBA8::new_rgb(9, 9, 9));
    assert!(changed_pixels(&r).is_empty());
    assert!(r.buffer().iter().all(|w| *w == 0));
}

#[test]
fn draw_blends_over_existing_pixels() {
    let mut r = Renderer::from(&desc(4, 4, 0));
    r.clear(RGBA8::new_rgb(0, 0, 255));
    r.draw(0, 0, 1, 1, RGBA8::new_rgba(255, 0, 100, 128));
    assert_eq!(RGBA8::from(r.pixel(0, 0)), RGBA8::new_rgba(128, 0, 177, 255));
    assert_eq!(RGBA8::from(r.pixel(1, 0)), RGBA8::new_rgb(0, 0, 255));
}

#[test]
fn draw_single_blends_one_pixel() {
    let mut r = Renderer::from(&desc(8, 8, 0));
    r.draw_single(3, 2, RGBA8::new_rgb(1, 2, 3));
    assert_eq!(changed_pixels(&r), vec![(3, 2)]);
    assert_eq!(r.buffer()[2 * 16 + 3], RGBA8::new_rgb(1, 2, 3).encode());
}

#[test]
fn coverage_pixels_are_clipped_and_use_coverage_as_alpha() {
    let mut r = Renderer::from(&desc(8, 8, 0));
    r.draw_coverage(-1, 0, 255, RGBA8::new_rgb(1, 2, 3));
    r.draw_coverage(0, 8, 255, RGBA8::new_rgb(1, 2, 3));
    assert!(changed_pixels(&r).is_empty());
    r.draw_coverage(1, 1, 255, RGBA8::new_rgba(200, 100, 50, 0));
    assert_eq!(RGBA8::from(r.pixel(1, 1)), RGBA8::new_rgb(200, 100, 50));
    r.draw_coverage(2, 1, 0, RGBA8::new_rgb(200, 100, 50));
    assert_eq!(RGBA8::from(r.pixel(2, 1)), RGBA8::new_rgb(0, 0, 0));
}

#[test]
fn later_rectangle_covers_overlap() {
    let mut r = Renderer::from(&desc(40, 40, 0));
    let red = RGBA8::new_rgb(255, 0, 0);
    let blue = RGBA8::new_rgb(0, 0, 255);
    r.draw(0, 0, 20, 20, red);
    r.draw(10, 10, 20, 20, blue);
    assert_eq!(r.pixel(15, 15), blue.encode());
    assert_eq!(r.pixel(5, 5), red.encode());
    assert_eq!(r.pixel(25, 25), blue.encode());
    assert_eq!(r.pixel(35, 35), 0);
}

#[test]
fn tiling_places_elements_in_fixed_order() {
    // One 64-byte-wide, 8-row image: a single tile.
    let input: Vec<u32> = (0..128u32).collect();
    let mut out = vec![0u32; 128];
    convert_buffers_impl(&mut out, &input, 64, 8, 1, 8);
    // element 0: row 0, bytes 0..16; element 1: row 1; element 2: row 0, bytes 16..32;
    // element 4: row 2; element 16: row 0, bytes 32..48.
    assert_eq!(&out[0..4], &[0, 1, 2, 3]);
    assert_eq!(&out[4..8], &[16, 17, 18, 19]);
    assert_eq!(&out[8..12], &[4, 5, 6, 7]);
    assert_eq!(&out[16..20], &[32, 33, 34, 35]);
    assert_eq!(&out[64..68], &[8, 9, 10, 11]);
    let mut sorted = out.clone();
    sorted.sort();
    assert_eq!(sorted, input);
}

#[test]
fn tiling_round_trip_restores_image_rows() {
    let (stride, height, gobs, aligned) = (5120u32, 720u32, 4u32, 736u32);
    let n = (stride / 4 * aligned) as usize;
    let input: Vec<u32> = (0..n as u32).map(|i| i.wrapping_mul(2654435761)).collect();
    let mut tiled = vec![0u32; n];
    convert_buffers_impl(&mut tiled, &input, stride, height, gobs, aligned);
    assert_ne!(tiled, input);
    let mut back = vec![0u32; n];
    convert_buffers_inverse(&mut back, &tiled, stride, height, gobs, aligned);
    let rw = (stride / 4) as usize;
    assert_eq!(&back[..rw * height as usize], &input[..rw * height as usize]);
}

#[test]
fn renderer_end_matches_conversion() {
    let mut r = Renderer::from(&desc(30, 20, 1));
    for y in 0..20u32 {
        for x in 0..30u32 {
            r.draw_single(x, y, RGBA8::new_rgb(x as u8, y as u8, 7));
        }
    }
    let n = r.buffer().len();
    let mut out = vec![0u32; n];
    r.end(&mut out);
    let mut expected = vec![0u32; n];
    convert_buffers_impl(&mut expected, r.buffer(), r.get_stride(), 20, 2, r.get_aligned_height());
    assert_eq!(out, expected);
    let mut back = vec![0u32; n];
    convert_buffers_inverse(&mut back, &out, r.get_stride(), 20, 2, r.get_aligned_height());
    for y in 0..20u32 {
        for x in 0..30u32 {
            assert_eq!(back[(y * r.get_stride() / 4 + x) as usize], r.pixel(x, y));
        }
    }
}

#[test]
fn tiling_into_larger_buffer_keeps_tail() {
    let input: Vec<u32> = (0..128u32).collect();
    let mut out = vec![7u32; 200];
    convert_buffers_impl(&mut out, &input, 64, 8, 1, 8);
    assert_eq!(&out[0..4], &[0, 1, 2, 3]);
    assert!(out[128..].iter().all(|w| *w == 7));
    let mut r = Renderer::from(&desc(16, 8, 0));
    r.clear(RGBA8::new_rgb(1, 1, 1));
    let mut gpu = vec![9u32; r.buffer().len() + 64];
    r.end(&mut gpu);
    assert!(gpu[..r.buffer().len()].iter().all(|w| *w == RGBA8::new_rgb(1, 1, 1).encode()));
    assert!(gpu[r.buffer().len()..].iter().all(|w| *w == 9));
}
