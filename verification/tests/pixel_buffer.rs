use mandelbrot::coloring::{ColorChannelMapping, TrueColor};
use mandelbrot::pixel_buffer::PixelBuffer;
use mandelbrot::pixel_plane::PixelPlane;

/// A buffer in which the cell `(x, y)` holds the color `(x, y, tag)`.
fn numbered(width: usize, height: usize, tag: u8) -> PixelBuffer {
    let mut buffer = PixelBuffer::new(PixelPlane::new(width, height));
    for y in 0..height {
        for x in 0..width {
            let index = buffer.point_to_index(x, y);
            buffer.colors[index] = TrueColor::new(x as u8, y as u8, tag);
        }
    }
    buffer.update_pixels();
    buffer
}

fn cell(buffer: &PixelBuffer, x: usize, y: usize) -> TrueColor {
    buffer.colors[buffer.point_to_index(x, y)]
}

#[test]
fn new_buffer_is_black() {
    let buffer = PixelBuffer::new(PixelPlane::new(4, 3));
    assert_eq!(buffer.colors.len(), 12);
    assert_eq!(buffer.pixels.len(), 12);
    assert!(buffer.colors.iter().all(|color| *color == TrueColor::new(0, 0, 0)));
    assert!(buffer.pixels.iter().all(|pixel| *pixel == 0));
    assert_eq!(buffer.color_channel_mapping, ColorChannelMapping::RGB);
    assert_eq!(buffer.pixel_plane, PixelPlane::new(4, 3));
}

#[test]
fn new_buffer_of_an_empty_plane_is_empty() {
    let buffer = PixelBuffer::new(PixelPlane::new(0, 3));
    assert!(buffer.colors.is_empty());
    assert!(buffer.pixels.is_empty());
}

#[test]
fn index_is_row_major() {
    let buffer = PixelBuffer::new(PixelPlane::new(5, 4));
    assert_eq!(buffer.point_to_index(0, 0), 0);
    assert_eq!(buffer.point_to_index(4, 0), 4);
    assert_eq!(buffer.point_to_index(0, 1), 5);
    assert_eq!(buffer.point_to_index(3, 2), 13);
    assert_eq!(buffer.point_to_index(4, 3), 19);
    assert_eq!(buffer.index_to_point(0), (0, 0));
    assert_eq!(buffer.index_to_point(4), (4, 0));
    assert_eq!(buffer.index_to_point(5), (0, 1));
    assert_eq!(buffer.index_to_point(13), (3, 2));
    assert_eq!(buffer.index_to_point(19), (4, 3));
}

#[test]
fn index_and_point_round_trip() {
    let buffer = PixelBuffer::new(PixelPlane::new(7, 3));
    for index in 0..21 {
        let (x, y) = buffer.index_to_point(index);
        assert!(x < 7 && y < 3);
        assert_eq!(buffer.point_to_index(x, y), index);
    }
    for y in 0..3 {
        for x in 0..7 {
            assert_eq!(buffer.index_to_point(buffer.point_to_index(x, y)), (x, y));
        }
    }
}

#[test]
fn colors_to_pixels_packs_every_color() {
    let colors = [TrueColor::new(1, 2, 3), TrueColor::new(255, 0, 128)];
    assert_eq!(
        PixelBuffer::colors_to_pixels(&colors, &ColorChannelMapping::RGB),
        vec![0x0001_0203, 0x00FF_0080]
    );
    assert_eq!(
        PixelBuffer::colors_to_pixels(&colors, &ColorChannelMapping::BRG),
        vec![0x0003_0102, 0x0080_FF00]
    );
    assert_eq!(PixelBuffer::colors_to_pixels(&[], &ColorChannelMapping::RGB), Vec::<u32>::new());
}

#[test]
fn update_pixels_follows_the_colors() {
    let mut buffer = PixelBuffer::new(PixelPlane::new(2, 2));
    buffer.colors[3] = TrueColor::new(9, 8, 7);
    assert_eq!(buffer.pixels, vec![0, 0, 0, 0]);
    buffer.update_pixels();
    assert_eq!(buffer.pixels, vec![0, 0, 0, 0x0009_0807]);
}

#[test]
fn update_pixels_follows_the_mapping() {
    let mut buffer = PixelBuffer::new(PixelPlane::new(1, 1));
    buffer.colors[0] = TrueColor::new(9, 8, 7);
    buffer.color_channel_mapping = ColorChannelMapping::BGR;
    buffer.update_pixels();
    assert_eq!(buffer.pixels, vec![0x0007_0809]);
}

#[test]
fn translate_right_moves_columns_and_keeps_the_exposed_ones() {
    let mut buffer = numbered(5, 3, 1);
    buffer.translate_buffer(0, 2);
    for y in 0..3 {
        for x in 0..5 {
            let expected = if x >= 2 { TrueColor::new(x as u8 - 2, y as u8, 1) } else { TrueColor::new(x as u8, y as u8, 1) };
            assert_eq!(cell(&buffer, x, y), expected);
        }
    }
}

#[test]
fn translate_left_moves_columns() {
    let mut buffer = numbered(5, 3, 1);
    buffer.translate_buffer(0, -1);
    for y in 0..3 {
        for x in 0..5 {
            let expected = if x < 4 { TrueColor::new(x as u8 + 1, y as u8, 1) } else { TrueColor::new(4, y as u8, 1) };
            assert_eq!(cell(&buffer, x, y), expected);
        }
    }
}

#[test]
fn translate_rows_both_ways() {
    let mut down = numbered(3, 5, 2);
    down.translate_buffer(2, 0);
    let mut up = numbered(3, 5, 2);
    up.translate_buffer(-3, 0);
    for y in 0..5 {
        for x in 0..3 {
            let from_above = if y >= 2 { y as u8 - 2 } else { y as u8 };
            assert_eq!(cell(&down, x, y), TrueColor::new(x as u8, from_above, 2));
            let from_below = if y < 2 { y as u8 + 3 } else { y as u8 };
            assert_eq!(cell(&up, x, y), TrueColor::new(x as u8, from_below, 2));
        }
    }
}

#[test]
fn translate_along_both_axes() {
    let mut buffer = numbered(4, 4, 3);
    buffer.translate_buffer(1, -2);
    for y in 0..4usize {
        for x in 0..4usize {
            let expected = if y >= 1 && x + 2 < 4 {
                TrueColor::new(x as u8 + 2, y as u8 - 1, 3)
            } else {
                TrueColor::new(x as u8, y as u8, 3)
            };
            assert_eq!(cell(&buffer, x, y), expected);
        }
    }
}

#[test]
fn translate_by_nothing_changes_nothing() {
    let mut buffer = numbered(4, 3, 4);
    let before = buffer.clone();
    buffer.translate_buffer(0, 0);
    assert_eq!(buffer.colors, before.colors);
    assert_eq!(buffer.pixels, before.pixels);
}

#[test]
fn translate_beyond_the_frame_changes_nothing() {
    for (rows, columns) in [(3i128, 0i128), (-3, 0), (0, 4), (0, -4), (100, 0), (0, -100), (i128::MIN, 0), (0, i128::MAX)] {
        let mut buffer = numbered(4, 3, 5);
        let before = buffer.clone();
        buffer.translate_buffer(rows, columns);
        assert_eq!(buffer.colors, before.colors);
        assert_eq!(buffer.pixels, before.pixels);
    }
}

#[test]
fn translate_moves_the_pixels_with_the_colors() {
    let mut buffer = numbered(6, 4, 6);
    buffer.translate_buffer(-1, 3);
    let expected = PixelBuffer::colors_to_pixels(&buffer.colors, &buffer.color_channel_mapping);
    assert_eq!(buffer.pixels, expected);
}

#[test]
fn image_data_lists_three_bytes_per_color() {
    let mut buffer = PixelBuffer::new(PixelPlane::new(2, 1));
    buffer.colors[0] = TrueColor::new(1, 2, 3);
    buffer.colors[1] = TrueColor::new(4, 5, 6);
    assert_eq!(buffer.image_data(), vec![1, 2, 3, 4, 5, 6]);
    buffer.color_channel_mapping = ColorChannelMapping::BBR;
    assert_eq!(buffer.image_data(), vec![3, 3, 1, 6, 6, 4]);
}

#[test]
fn well_formed_buffers_fit_their_plane() {
    let mut buffer = PixelBuffer::new(PixelPlane::new(3, 2));
    assert!(buffer.is_well_formed());
    buffer.colors.push(TrueColor::new(0, 0, 0));
    assert!(!buffer.is_well_formed());
    buffer.pixels.push(0);
    assert!(!buffer.is_well_formed());
    buffer.pixel_plane = PixelPlane::new(7, 1);
    assert!(buffer.is_well_formed());
    buffer.pixel_plane = PixelPlane::new(usize::MAX, 2);
    assert!(!buffer.is_well_formed());
}
