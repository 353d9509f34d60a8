use uefi_display::uefi_fb::{
    all_valid, blank_region, decode_pixel, encode_pixel, find_default_mode, DisplayMode, FbError,
    FillReport, PixelFormat, UefiFb, WriteOutcome, BYTES_PER_PIXEL,
};

fn mode(width: usize, height: usize, stride: usize, format: PixelFormat) -> DisplayMode {
    DisplayMode::new(width, height, stride, format).expect("valid mode")
}

fn device(format: PixelFormat, width: usize, height: usize, stride: usize) -> UefiFb {
    let active = mode(width, height, stride, format);
    UefiFb::new(vec![active], active).expect("valid device")
}

fn pixel_bytes(fb: &UefiFb, row: usize, col: usize) -> [u8; 4] {
    let at = BYTES_PER_PIXEL * (row * fb.current_mode_info().stride + col);
    assert_eq!(fb.cell_at(row, col), at);
    [fb.byte_at(at), fb.byte_at(at + 1), fb.byte_at(at + 2), fb.byte_at(at + 3)]
}

#[test]
fn encode_rgb_keeps_the_byte_order() {
    assert_eq!(encode_pixel(PixelFormat::Rgb, [250, 128, 64]), Some([250, 128, 64]));
}

#[test]
fn encode_bgr_reverses_the_bytes() {
    assert_eq!(encode_pixel(PixelFormat::Bgr, [250, 128, 64]), Some([64, 128, 250]));
}

#[test]
fn encode_rejects_other_formats() {
    assert_eq!(encode_pixel(PixelFormat::Bitmask, [1, 2, 3]), None);
    assert_eq!(encode_pixel(PixelFormat::BltOnly, [1, 2, 3]), None);
    assert!(!PixelFormat::Bitmask.supported());
    assert!(!PixelFormat::BltOnly.supported());
    assert!(PixelFormat::Rgb.supported());
    assert!(PixelFormat::Bgr.supported());
}

#[test]
fn decode_inverts_encode() {
    for format in [PixelFormat::Rgb, PixelFormat::Bgr] {
        let rgb = [16u8, 128, 255];
        let stored = encode_pixel(format, rgb).unwrap();
        assert_eq!(decode_pixel(format, stored), Some(rgb));
    }
    assert_eq!(decode_pixel(PixelFormat::Bgr, [1, 2, 3]), Some([3, 2, 1]));
    assert_eq!(decode_pixel(PixelFormat::Bitmask, [1, 2, 3]), None);
}

#[test]
fn display_mode_needs_stride_of_at_least_the_width() {
    assert!(DisplayMode::new(1024, 768, 1023, PixelFormat::Rgb).is_none());
    let m = DisplayMode::new(1024, 768, 1024, PixelFormat::Rgb).unwrap();
    assert_eq!(m.resolution(), (1024, 768));
    assert_eq!(m.stride, 1024);
    assert!(m.valid());
    let padded = DisplayMode::new(1000, 10, 1024, PixelFormat::Bgr).unwrap();
    assert_eq!(padded.stride, 1024);
    assert_eq!(padded.format, PixelFormat::Bgr);
}

#[test]
fn display_mode_needs_a_region_that_fits() {
    assert!(DisplayMode::new(1, usize::MAX, usize::MAX, PixelFormat::Rgb).is_none());
    assert!(DisplayMode::new(1, 1, usize::MAX / 2, PixelFormat::Rgb).is_none());
    assert!(DisplayMode::new(1, 1, usize::MAX / 4, PixelFormat::Rgb).is_some());
    assert!(DisplayMode::new(0, 0, usize::MAX, PixelFormat::Rgb).is_some());
}

#[test]
fn blank_region_is_all_zero() {
    assert_eq!(blank_region(0), Vec::<u8>::new());
    assert_eq!(blank_region(5), vec![0u8; 5]);
}

#[test]
fn new_device_is_blank_and_keeps_the_active_mode() {
    let fb = device(PixelFormat::Rgb, 4, 3, 5);
    assert_eq!(fb.size(), 4 * 5 * 3);
    assert_eq!(fb.current_mode_info(), mode(4, 3, 5, PixelFormat::Rgb));
    for at in 0..fb.size() {
        assert_eq!(fb.byte_at(at), 0);
    }
}

#[test]
fn new_device_rejects_an_invalid_mode() {
    let good = mode(4, 3, 4, PixelFormat::Rgb);
    let bad = DisplayMode { width: 4, height: 3, stride: 2, format: PixelFormat::Rgb };
    assert!(UefiFb::new(vec![good, bad], good).is_none());
    assert!(UefiFb::new(vec![good], bad).is_none());
    assert!(UefiFb::new(vec![], good).is_some());
}

#[test]
fn find_default_mode_takes_the_first_match() {
    let a = mode(800, 600, 800, PixelFormat::Bgr);
    let b = mode(1024, 768, 1024, PixelFormat::Bgr);
    let c = mode(1024, 768, 1280, PixelFormat::Rgb);
    assert_eq!(find_default_mode(&vec![a, b, c]), Some(1));
    assert_eq!(find_default_mode(&vec![c, b]), Some(0));
    assert_eq!(find_default_mode(&vec![a]), None);
    assert_eq!(find_default_mode(&vec![]), None);
    assert_eq!(find_default_mode(&vec![mode(1024, 600, 1024, PixelFormat::Rgb)]), None);
    assert_eq!(find_default_mode(&vec![mode(800, 768, 800, PixelFormat::Rgb)]), None);
}

#[test]
fn set_mode_selects_the_default_resolution() {
    let first = mode(1024, 768, 1024, PixelFormat::Rgb);
    let second = mode(800, 600, 800, PixelFormat::Bgr);
    let mut fb = UefiFb::new(vec![first, second], second).unwrap();
    assert_eq!(fb.set_graphics_mode(None), Ok(0));
    assert_eq!(fb.current_mode_info(), first);
    assert_eq!(fb.current_mode_info().resolution(), (1024, 768));
    assert_eq!(fb.size(), 4 * 1024 * 768);
}

#[test]
fn set_mode_clears_the_framebuffer() {
    let m = mode(1024, 768, 1024, PixelFormat::Rgb);
    let mut fb = UefiFb::new(vec![m], m).unwrap();
    assert_eq!(fb.write_pixel(7, [1, 2, 3]), WriteOutcome::Written);
    assert_eq!(fb.byte_at(28), 1);
    assert_eq!(fb.set_graphics_mode(None), Ok(0));
    assert_eq!(fb.byte_at(28), 0);
    assert_eq!(fb.byte_at(29), 0);
    assert_eq!(fb.byte_at(30), 0);
}

#[test]
fn set_mode_fails_without_the_default_resolution() {
    let only = mode(800, 600, 800, PixelFormat::Bgr);
    let mut fb = UefiFb::new(vec![only], only).unwrap();
    assert_eq!(fb.set_graphics_mode(None), Err(FbError::NoMatchingMode));
    assert_eq!(fb.set_graphics_mode(None), Err(FbError::NoMatchingMode));
    assert_eq!(fb.current_mode_info(), only);
    assert_eq!(fb.size(), 4 * 800 * 600);
}

#[test]
fn set_mode_refuses_a_specific_request() {
    let first = mode(1024, 768, 1024, PixelFormat::Rgb);
    let second = mode(800, 600, 800, PixelFormat::Bgr);
    let mut fb = UefiFb::new(vec![first, second], second).unwrap();
    assert_eq!(
        fb.set_graphics_mode(Some((1024, 768, 32))),
        Err(FbError::ModeRequestUnsupported)
    );
    assert_eq!(fb.current_mode_info(), second);
}

#[test]
fn write_pixel_rgb_stores_the_triple_at_four_times_the_index() {
    let mut fb = device(PixelFormat::Rgb, 4, 2, 4);
    assert_eq!(fb.write_pixel(5, [250, 128, 64]), WriteOutcome::Written);
    for at in 0..fb.size() {
        let expected = match at {
            20 => 250,
            21 => 128,
            22 => 64,
            _ => 0,
        };
        assert_eq!(fb.byte_at(at), expected, "byte {}", at);
    }
}

#[test]
fn write_pixel_bgr_stores_the_reversed_triple() {
    let mut fb = device(PixelFormat::Bgr, 4, 2, 4);
    assert_eq!(fb.write_pixel(5, [250, 128, 64]), WriteOutcome::Written);
    for at in 0..fb.size() {
        let expected = match at {
            20 => 64,
            21 => 128,
            22 => 250,
            _ => 0,
        };
        assert_eq!(fb.byte_at(at), expected, "byte {}", at);
    }
}

#[test]
fn draw_fb_writes_at_the_byte_offset() {
    let mut fb = device(PixelFormat::Bgr, 4, 2, 4);
    assert_eq!(fb.draw_fb(29, [1, 2, 3]), WriteOutcome::Written);
    assert_eq!(fb.byte_at(28), 0);
    assert_eq!(fb.byte_at(29), 3);
    assert_eq!(fb.byte_at(30), 2);
    assert_eq!(fb.byte_at(31), 1);
}

#[test]
fn read_pixel_gives_back_what_was_written() {
    for format in [PixelFormat::Rgb, PixelFormat::Bgr] {
        let mut fb = device(format, 4, 2, 6);
        assert_eq!(fb.write_pixel(11, [250, 128, 64]), WriteOutcome::Written);
        assert_eq!(fb.read_pixel(11), Some([250, 128, 64]));
        assert_eq!(fb.read_pixel(10), Some([0, 0, 0]));
        assert_eq!(fb.write_pixel(11, [16, 128, 255]), WriteOutcome::Written);
        assert_eq!(fb.read_pixel(11), Some([16, 128, 255]));
    }
}

#[test]
fn unsupported_format_writes_nothing() {
    for format in [PixelFormat::Bitmask, PixelFormat::BltOnly] {
        let mut fb = device(format, 4, 2, 4);
        assert_eq!(fb.write_pixel(3, [250, 128, 64]), WriteOutcome::UnsupportedFormat);
        assert_eq!(fb.draw_fb(12, [250, 128, 64]), WriteOutcome::UnsupportedFormat);
        for at in 0..fb.size() {
            assert_eq!(fb.byte_at(at), 0);
        }
        assert_eq!(fb.read_pixel(3), None);
    }
}

#[test]
fn fill_rectangle_scenario() {
    let first = mode(1024, 768, 1024, PixelFormat::Rgb);
    let second = mode(800, 600, 800, PixelFormat::Bgr);
    let mut fb = UefiFb::new(vec![first, second], second).unwrap();
    assert_eq!(fb.set_graphics_mode(None), Ok(0));
    assert!(fb.within_bounds((50, 30), (150, 600)));
    let report = fb.fill_rectangle((50, 30), (150, 600), [250, 128, 64]);
    assert_eq!(report, FillReport { written: 100 * 570, skipped: 0 });
    for row in 0..768 {
        for col in 0..1024 {
            let inside = (30..600).contains(&row) && (50..150).contains(&col);
            let expected = if inside { [250, 128, 64, 0] } else { [0, 0, 0, 0] };
            assert_eq!(pixel_bytes(&fb, row, col), expected, "row {} column {}", row, col);
        }
    }
    assert!(!fb.within_bounds((50, 30), (1025, 600)));
    assert!(!fb.within_bounds((50, 30), (150, 769)));
    assert!(!fb.within_bounds((1025, 30), (150, 600)));
    assert!(fb.within_bounds((0, 0), (1024, 768)));
}

#[test]
fn fill_rectangle_second_region_in_bgr() {
    let m = mode(1024, 768, 1024, PixelFormat::Bgr);
    let mut fb = UefiFb::new(vec![m], m).unwrap();
    let report = fb.fill_rectangle((400, 120), (750, 450), [16, 128, 255]);
    assert_eq!(report.written, 350 * 330);
    assert_eq!(report.skipped, 0);
    assert_eq!(pixel_bytes(&fb, 120, 400), [255, 128, 16, 0]);
    assert_eq!(pixel_bytes(&fb, 449, 749), [255, 128, 16, 0]);
    assert_eq!(pixel_bytes(&fb, 450, 749), [0, 0, 0, 0]);
    assert_eq!(pixel_bytes(&fb, 449, 750), [0, 0, 0, 0]);
    assert_eq!(pixel_bytes(&fb, 119, 400), [0, 0, 0, 0]);
    assert_eq!(pixel_bytes(&fb, 120, 399), [0, 0, 0, 0]);
    assert_eq!(fb.read_pixel(200 * 1024 + 500), Some([16, 128, 255]));
}

#[test]
fn fill_rectangle_uses_the_stride() {
    let mut fb = device(PixelFormat::Rgb, 3, 3, 5);
    let report = fb.fill_rectangle((1, 1), (3, 3), [9, 8, 7]);
    assert_eq!(report, FillReport { written: 4, skipped: 0 });
    let mut expected = vec![0u8; 4 * 5 * 3];
    for (row, col) in [(1usize, 1usize), (1, 2), (2, 1), (2, 2)] {
        let at = 4 * (row * 5 + col);
        expected[at] = 9;
        expected[at + 1] = 8;
        expected[at + 2] = 7;
    }
    for at in 0..fb.size() {
        assert_eq!(fb.byte_at(at), expected[at], "byte {}", at);
    }
}

#[test]
fn fill_rectangle_keeps_what_lies_outside() {
    let mut fb = device(PixelFormat::Rgb, 4, 4, 4);
    fb.fill_rectangle((0, 0), (4, 4), [1, 1, 1]);
    let report = fb.fill_rectangle((1, 1), (2, 3), [5, 6, 7]);
    assert_eq!(report.written, 2);
    for row in 0..4 {
        for col in 0..4 {
            let inside = col == 1 && (row == 1 || row == 2);
            let expected = if inside { [5, 6, 7, 0] } else { [1, 1, 1, 0] };
            assert_eq!(pixel_bytes(&fb, row, col), expected);
        }
    }
}

#[test]
fn fill_rectangle_of_no_cells_writes_nothing() {
    let mut fb = device(PixelFormat::Rgb, 4, 4, 4);
    assert_eq!(fb.fill_rectangle((2, 1), (2, 3), [5, 6, 7]), FillReport { written: 0, skipped: 0 });
    assert_eq!(fb.fill_rectangle((1, 3), (2, 3), [5, 6, 7]), FillReport { written: 0, skipped: 0 });
    assert_eq!(fb.fill_rectangle((3, 3), (1, 1), [5, 6, 7]), FillReport { written: 0, skipped: 0 });
    for at in 0..fb.size() {
        assert_eq!(fb.byte_at(at), 0);
    }
}

#[test]
fn fill_rectangle_up_to_the_far_corner() {
    let mut fb = device(PixelFormat::Bgr, 3, 2, 4);
    assert!(fb.within_bounds((0, 0), (3, 2)));
    let report = fb.fill_rectangle((0, 0), (3, 2), [1, 2, 3]);
    assert_eq!(report.written, 6);
    assert_eq!(pixel_bytes(&fb, 1, 2), [3, 2, 1, 0]);
    assert_eq!(pixel_bytes(&fb, 1, 3), [0, 0, 0, 0]);
    assert_eq!(pixel_bytes(&fb, 0, 3), [0, 0, 0, 0]);
}

#[test]
fn fill_rectangle_skips_every_cell_of_an_unsupported_format() {
    let mut fb = device(PixelFormat::Bitmask, 4, 4, 4);
    let report = fb.fill_rectangle((1, 1), (3, 4), [5, 6, 7]);
    assert_eq!(report, FillReport { written: 0, skipped: 6 });
    for at in 0..fb.size() {
        assert_eq!(fb.byte_at(at), 0);
    }
}

#[test]
fn blt_fill_covers_the_region() {
    let mut fb = device(PixelFormat::Bgr, 4, 3, 4);
    let done = fb.fb_blt_fill([100, 149, 237], (1, 0), (3, 2));
    assert_eq!(done, Ok(FillReport { written: 6, skipped: 0 }));
    for row in 0..3 {
        for col in 0..4 {
            let inside = row < 2 && col >= 1;
            let expected = if inside { [237, 149, 100, 0] } else { [0, 0, 0, 0] };
            assert_eq!(pixel_bytes(&fb, row, col), expected);
        }
    }
}

#[test]
fn blt_fill_of_the_whole_screen() {
    let m = mode(1024, 768, 1024, PixelFormat::Rgb);
    let mut fb = UefiFb::new(vec![m], m).unwrap();
    let done = fb.fb_blt_fill([100, 149, 237], (0, 0), (1024, 768));
    assert_eq!(done, Ok(FillReport { written: 1024 * 768, skipped: 0 }));
    assert_eq!(pixel_bytes(&fb, 0, 0), [100, 149, 237, 0]);
    assert_eq!(pixel_bytes(&fb, 767, 1023), [100, 149, 237, 0]);
}

#[test]
fn blt_fill_rejects_a_region_out_of_bounds() {
    let mut fb = device(PixelFormat::Rgb, 4, 3, 4);
    assert_eq!(fb.fb_blt_fill([1, 2, 3], (1, 0), (4, 2)), Err(FbError::RegionOutOfBounds));
    assert_eq!(fb.fb_blt_fill([1, 2, 3], (0, 2), (4, 2)), Err(FbError::RegionOutOfBounds));
    assert_eq!(fb.fb_blt_fill([1, 2, 3], (5, 0), (0, 0)), Err(FbError::RegionOutOfBounds));
    assert_eq!(
        fb.fb_blt_fill([1, 2, 3], (1, 1), (usize::MAX, 1)),
        Err(FbError::RegionOutOfBounds)
    );
    for at in 0..fb.size() {
        assert_eq!(fb.byte_at(at), 0);
    }
    assert_eq!(fb.fb_blt_fill([1, 2, 3], (4, 3), (0, 0)), Ok(FillReport { written: 0, skipped: 0 }));
}

#[test]
fn cell_at_is_four_times_row_times_stride_plus_column() {
    let fb = device(PixelFormat::Rgb, 3, 3, 5);
    assert_eq!(fb.cell_at(0, 0), 0);
    assert_eq!(fb.cell_at(0, 4), 16);
    assert_eq!(fb.cell_at(1, 0), 20);
    assert_eq!(fb.cell_at(2, 4), 56);
    assert_eq!(fb.cell_at(2, 4) + 4, fb.size());
}

#[test]
fn all_valid_looks_at_every_mode() {
    let good = mode(4, 3, 4, PixelFormat::Rgb);
    let bad = DisplayMode { width: 4, height: 3, stride: 3, format: PixelFormat::Bgr };
    assert!(all_valid(&vec![]));
    assert!(all_valid(&vec![good, good]));
    assert!(!all_valid(&vec![good, good, bad]));
    assert!(!all_valid(&vec![bad, good]));
    assert!(!bad.valid());
}

#[test]
fn unsupported_format_takes_any_index() {
    for format in [PixelFormat::Bitmask, PixelFormat::BltOnly] {
        let mut fb = device(format, 4, 2, 4);
        let size = fb.size();
        assert_eq!(fb.draw_fb(size, [1, 2, 3]), WriteOutcome::UnsupportedFormat);
        assert_eq!(fb.draw_fb(usize::MAX, [1, 2, 3]), WriteOutcome::UnsupportedFormat);
        assert_eq!(fb.write_pixel(usize::MAX, [1, 2, 3]), WriteOutcome::UnsupportedFormat);
        assert_eq!(fb.size(), size);
        for at in 0..fb.size() {
            assert_eq!(fb.byte_at(at), 0);
        }
        assert_eq!(
            fb.fb_blt_fill([1, 2, 3], (0, 0), (4, 2)),
            Ok(FillReport { written: 8, skipped: 0 })
        );
    }
}

#[test]
fn blt_fill_is_served_in_every_format() {
    for format in [PixelFormat::Bitmask, PixelFormat::BltOnly] {
        let mut fb = device(format, 4, 3, 5);
        let done = fb.fb_blt_fill([100, 149, 237], (1, 0), (3, 2));
        assert_eq!(done, Ok(FillReport { written: 6, skipped: 0 }));
        assert_eq!(fb.size(), 4 * 5 * 3);
        assert_eq!(fb.current_mode_info(), mode(4, 3, 5, format));
        for row in 0..3 {
            for col in 0..5 {
                let inside = row < 2 && (1..4).contains(&col);
                if !inside {
                    assert_eq!(pixel_bytes(&fb, row, col), [0, 0, 0, 0]);
                }
            }
        }
        assert_eq!(
            fb.fb_blt_fill([1, 2, 3], (2, 0), (3, 1)),
            Err(FbError::RegionOutOfBounds)
        );
        assert_eq!(fb.fb_blt_fill([1, 2, 3], (2, 3), (1, 0)), Ok(FillReport { written: 0, skipped: 0 }));
    }
}
