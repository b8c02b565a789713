use std::cell::Cell;

use mandelbrot::coloring::{ColorChannelMapping, TrueColor};
use mandelbrot::merge::{copy_row, merge_chunks};
use mandelbrot::pixel_buffer::PixelBuffer;
use mandelbrot::pixel_plane::PixelPlane;
use mandelbrot::rendering::{
    exposed_strip, render_box_render_complex_plane_into_buffer, render_chunk,
    render_complex_plane_into_buffer, supersample, translate_and_render_complex_plane_buffer,
    translate_and_render_efficiently, translate_to_center_and_render_efficiently, RenderBox,
};
use mandelbrot::work_queue::WorkQueue;

/// The iteration count that stands for the point `(column, row)` of an
/// endless test picture.
fn pattern(column: i64, row: i64) -> u32 {
    (column * 7 + row * 13).rem_euclid(251) as u32
}

/// The samples of the view whose top left pixel shows the point `(left, top)`.
fn view(left: i64, top: i64) -> impl Fn(usize, usize) -> u32 {
    move |x: usize, y: usize| pattern(left + x as i64, top + y as i64)
}

/// A coloring that keeps the iteration count readable.
fn plain(iterations: u32, max_iterations: u32) -> TrueColor {
    TrueColor::new(iterations as u8, (max_iterations % 256) as u8, 200)
}

fn marked(width: usize, height: usize) -> PixelBuffer {
    let mut buffer = PixelBuffer::new(PixelPlane::new(width, height));
    for color in buffer.colors.iter_mut() {
        *color = TrueColor::new(1, 1, 1);
    }
    buffer.update_pixels();
    buffer
}

#[test]
fn render_box_holds_its_corners() {
    let render_box = RenderBox::new(1, 4, 2, 6);
    assert_eq!(render_box, RenderBox { min_x: 1, max_x: 4, min_y: 2, max_y: 6 });
}

#[test]
fn render_box_contains_its_bounds() {
    let render_box = RenderBox::new(2, 4, 3, 5);
    assert!(render_box.contains((2, 3)));
    assert!(render_box.contains((4, 5)));
    assert!(render_box.contains((3, 4)));
    assert!(!render_box.contains((1, 4)));
    assert!(!render_box.contains((5, 4)));
    assert!(!render_box.contains((3, 2)));
    assert!(!render_box.contains((3, 6)));
}

#[test]
fn render_box_pixel_count_is_the_area_between_the_corners() {
    assert_eq!(RenderBox::new(0, 1200, 0, 800).compute_pixel_count(), 960_000);
    assert_eq!(RenderBox::new(2, 5, 1, 3).compute_pixel_count(), 6);
    assert_eq!(RenderBox::new(2, 2, 1, 9).compute_pixel_count(), 0);
}

#[test]
fn work_queue_hands_out_every_row_once() {
    let mut queue = WorkQueue::new(3);
    assert_eq!(queue.claim(), Some(0));
    assert_eq!(queue.claim(), Some(1));
    assert_eq!(queue.claim(), Some(2));
    assert_eq!(queue.claim(), None);
    assert_eq!(queue.claim(), None);
    assert_eq!(queue, WorkQueue { next_chunk: 3, chunks_len: 3 });
}

#[test]
fn work_queue_hands_out_the_rows_in_order_to_whoever_asks() {
    let mut queue = WorkQueue::new(100);
    let mut first: Vec<usize> = Vec::new();
    let mut second: Vec<usize> = Vec::new();
    for turn in 0..150 {
        let claimed = queue.claim();
        assert_eq!(claimed, if turn < 100 { Some(turn) } else { None });
        if let Some(row) = claimed {
            if turn % 3 == 0 {
                first.push(row);
            } else {
                second.push(row);
            }
        }
    }
    assert_eq!(first.len() + second.len(), 100);
    assert!(first.iter().all(|row| !second.contains(row)));
}

#[test]
fn work_queue_without_rows_hands_out_nothing() {
    let mut queue = WorkQueue::new(0);
    assert_eq!(queue.claim(), None);
    assert_eq!(queue.next_chunk, 0);
}

#[test]
fn supersample_colors_what_the_samples_give() {
    let color = supersample(3, 4, 1, 50, &view(0, 0), &plain);
    assert_eq!(color, TrueColor::new(73, 50, 200));
}

#[test]
fn supersample_averages_its_samples() {
    let calls = Cell::new(0u32);
    let rising = |_x: usize, _y: usize| {
        calls.set(calls.get() + 1);
        calls.get() * 10
    };
    let color = supersample(0, 0, 4, 9, &rising, &plain);
    assert_eq!(calls.get(), 4);
    assert_eq!(color, TrueColor::new(25, 9, 200));
}

#[test]
fn supersample_clamps_the_amount() {
    for (asked, taken) in [(0u8, 1u32), (1, 1), (5, 5), (64, 64), (65, 64), (255, 64)] {
        let calls = Cell::new(0u32);
        let counting = |_x: usize, _y: usize| {
            calls.set(calls.get() + 1);
            7
        };
        let color = supersample(2, 2, asked, 100, &counting, &plain);
        assert_eq!(calls.get(), taken);
        assert_eq!(color, TrueColor::new(7, 100, 200));
    }
}

#[test]
fn supersample_hands_the_pixel_and_the_limit_on() {
    let seen = Cell::new((0usize, 0usize));
    let limit = Cell::new(0u32);
    let watching = |x: usize, y: usize| {
        seen.set((x, y));
        11
    };
    let coloring = |iterations: u32, max_iterations: u32| {
        limit.set(max_iterations);
        TrueColor::new(iterations as u8, 0, 0)
    };
    let color = supersample(8, 9, 1, 1234, &watching, &coloring);
    assert_eq!(seen.get(), (8, 9));
    assert_eq!(limit.get(), 1234);
    assert_eq!(color, TrueColor::new(11, 0, 0));
}

#[test]
fn copy_row_takes_one_row() {
    let colors: Vec<TrueColor> = (0..12).map(|i| TrueColor::new(i, 0, 0)).collect();
    assert_eq!(
        copy_row(&colors, 4, 1),
        vec![TrueColor::new(4, 0, 0), TrueColor::new(5, 0, 0), TrueColor::new(6, 0, 0), TrueColor::new(7, 0, 0)]
    );
    assert_eq!(copy_row(&colors, 4, 2)[3], TrueColor::new(11, 0, 0));
}

#[test]
fn render_chunk_renders_inside_the_box_only() {
    let chunk = vec![TrueColor::new(1, 1, 1); 6];
    let rendered = render_chunk(chunk, 2, RenderBox::new(1, 3, 0, 5), 1, 50, &view(0, 0), &plain);
    assert_eq!(rendered.len(), 6);
    for x in 0..6usize {
        let expected = if (1..=3).contains(&x) { plain(pattern(x as i64, 2), 50) } else { TrueColor::new(1, 1, 1) };
        assert_eq!(rendered[x], expected);
    }
}

#[test]
fn render_chunk_skips_rows_outside_the_box() {
    let chunk = vec![TrueColor::new(1, 1, 1); 4];
    let calls = Cell::new(0u32);
    let counting = |_x: usize, _y: usize| {
        calls.set(calls.get() + 1);
        0
    };
    let rendered = render_chunk(chunk.clone(), 7, RenderBox::new(0, 3, 0, 6), 1, 50, &counting, &plain);
    assert_eq!(rendered, chunk);
    assert_eq!(calls.get(), 0);
}

#[test]
fn merge_writes_rows_at_their_offsets() {
    let mut buffer = marked(3, 3);
    let red = vec![TrueColor::new(9, 0, 0); 3];
    let blue = vec![TrueColor::new(0, 0, 9); 3];
    merge_chunks(&mut buffer, &vec![(2, red.clone()), (0, blue.clone())]);
    assert_eq!(copy_row(&buffer.colors, 3, 0), blue);
    assert_eq!(copy_row(&buffer.colors, 3, 1), vec![TrueColor::new(1, 1, 1); 3]);
    assert_eq!(copy_row(&buffer.colors, 3, 2), red);
    assert_eq!(buffer.pixels, vec![0x0001_0101; 9]);
}

#[test]
fn merge_ignores_the_order_of_the_rows() {
    let rows: Vec<(usize, Vec<TrueColor>)> =
        (0..4usize).map(|y| (y, (0..5).map(|x| plain(pattern(x, y as i64), 3)).collect())).collect();
    let mut in_order = marked(5, 4);
    merge_chunks(&mut in_order, &rows);
    let shuffled = vec![rows[2].clone(), rows[0].clone(), rows[3].clone(), rows[1].clone()];
    let mut out_of_order = marked(5, 4);
    merge_chunks(&mut out_of_order, &shuffled);
    assert_eq!(in_order.colors, out_of_order.colors);
}

#[test]
fn render_box_pass_leaves_the_rest_alone() {
    let mut buffer = marked(6, 5);
    render_box_render_complex_plane_into_buffer(&mut buffer, RenderBox::new(2, 3, 1, 2), 1, 50, &view(10, 20), &plain);
    for y in 0..5usize {
        for x in 0..6usize {
            let inside = (2..=3).contains(&x) && (1..=2).contains(&y);
            let expected = if inside { plain(pattern(10 + x as i64, 20 + y as i64), 50) } else { TrueColor::new(1, 1, 1) };
            assert_eq!(buffer.colors[y * 6 + x], expected);
        }
    }
}

#[test]
fn render_box_pass_rebuilds_the_pixels() {
    let mut buffer = marked(4, 4);
    buffer.color_channel_mapping = ColorChannelMapping::BGR;
    render_box_render_complex_plane_into_buffer(&mut buffer, RenderBox::new(0, 1, 0, 1), 1, 50, &view(0, 0), &plain);
    let expected = PixelBuffer::colors_to_pixels(&buffer.colors, &ColorChannelMapping::BGR);
    assert_eq!(buffer.pixels, expected);
    assert_eq!(buffer.pixels[0], plain(pattern(0, 0), 50).to_32_bit(&ColorChannelMapping::BGR));
}

#[test]
fn render_box_pass_samples_each_pixel_of_the_box_the_asked_number_of_times() {
    let calls = Cell::new(0u32);
    let counting = |_x: usize, _y: usize| {
        calls.set(calls.get() + 1);
        1
    };
    let mut buffer = marked(10, 10);
    render_box_render_complex_plane_into_buffer(&mut buffer, RenderBox::new(0, 2, 0, 1), 5, 50, &counting, &plain);
    assert_eq!(calls.get(), 3 * 2 * 5);
}

#[test]
fn full_render_fills_every_pixel() {
    let mut buffer = marked(7, 4);
    render_complex_plane_into_buffer(&mut buffer, 3, 50, &view(-3, 5), &plain);
    for y in 0..4usize {
        for x in 0..7usize {
            assert_eq!(buffer.colors[y * 7 + x], plain(pattern(x as i64 - 3, y as i64 + 5), 50));
        }
    }
    assert_eq!(buffer.pixels, PixelBuffer::colors_to_pixels(&buffer.colors, &ColorChannelMapping::RGB));
}

#[test]
fn full_render_of_an_empty_frame_does_nothing() {
    let mut buffer = PixelBuffer::new(PixelPlane::new(0, 4));
    render_complex_plane_into_buffer(&mut buffer, 1, 50, &view(0, 0), &plain);
    assert!(buffer.colors.is_empty());
    assert!(buffer.pixels.is_empty());
}

#[test]
fn render_of_the_full_box_equals_full_render() {
    let mut by_box = marked(9, 6);
    let mut whole = PixelBuffer::new(PixelPlane::new(9, 6));
    render_box_render_complex_plane_into_buffer(&mut by_box, RenderBox::new(0, 9, 0, 6), 2, 77, &view(4, 4), &plain);
    render_complex_plane_into_buffer(&mut whole, 2, 77, &view(4, 4), &plain);
    assert_eq!(by_box.colors, whole.colors);
    assert_eq!(by_box.pixels, whole.pixels);
}

#[test]
fn exposed_strip_is_as_wide_as_the_shift() {
    let plane = PixelPlane::new(10, 6);
    assert_eq!(exposed_strip(&plane, 0, 3), Some(RenderBox::new(0, 2, 0, 5)));
    assert_eq!(exposed_strip(&plane, 0, -3), Some(RenderBox::new(7, 9, 0, 5)));
    assert_eq!(exposed_strip(&plane, 2, 0), Some(RenderBox::new(0, 9, 0, 1)));
    assert_eq!(exposed_strip(&plane, -1, 0), Some(RenderBox::new(0, 9, 5, 5)));
}

#[test]
fn exposed_strip_is_at_most_the_frame() {
    let plane = PixelPlane::new(10, 6);
    assert_eq!(exposed_strip(&plane, 0, 10), Some(RenderBox::new(0, 9, 0, 5)));
    assert_eq!(exposed_strip(&plane, 0, -500), Some(RenderBox::new(0, 9, 0, 5)));
    assert_eq!(exposed_strip(&plane, i128::MIN, 0), Some(RenderBox::new(0, 9, 0, 5)));
    assert_eq!(exposed_strip(&plane, i128::MAX, 0), Some(RenderBox::new(0, 9, 0, 5)));
}

#[test]
fn nothing_is_exposed_without_a_shift_or_without_a_frame() {
    assert_eq!(exposed_strip(&PixelPlane::new(10, 6), 0, 0), None);
    assert_eq!(exposed_strip(&PixelPlane::new(0, 6), 0, 2), None);
    assert_eq!(exposed_strip(&PixelPlane::new(10, 0), 1, 0), None);
}

#[test]
fn pan_renders_the_exposed_strip_only() {
    let mut buffer = PixelBuffer::new(PixelPlane::new(8, 5));
    render_complex_plane_into_buffer(&mut buffer, 1, 50, &view(0, 0), &plain);
    let calls = Cell::new(0u32);
    let moved = view(-3, 0);
    let counting = |x: usize, y: usize| {
        calls.set(calls.get() + 1);
        moved(x, y)
    };
    translate_and_render_complex_plane_buffer(&mut buffer, 0, 3, 1, 50, &counting, &plain);
    assert_eq!(calls.get(), 3 * 5);
}

#[test]
fn pan_equals_full_render_of_the_moved_view() {
    for (rows, columns) in [(0i128, 3i128), (0, -2), (4, 0), (-1, 0), (0, 0), (0, 8), (0, -30), (5, 0), (-77, 0)] {
        let mut panned = PixelBuffer::new(PixelPlane::new(8, 5));
        render_complex_plane_into_buffer(&mut panned, 1, 50, &view(100, 200), &plain);
        let moved = view(100 - columns as i64, 200 - rows as i64);
        translate_and_render_complex_plane_buffer(&mut panned, rows, columns, 1, 50, &moved, &plain);
        let mut whole = PixelBuffer::new(PixelPlane::new(8, 5));
        render_complex_plane_into_buffer(&mut whole, 1, 50, &moved, &plain);
        assert_eq!(panned.colors, whole.colors);
        assert_eq!(panned.pixels, whole.pixels);
    }
}

#[test]
fn pan_of_the_view_moves_the_picture_the_other_way() {
    let mut buffer = PixelBuffer::new(PixelPlane::new(6, 4));
    render_complex_plane_into_buffer(&mut buffer, 1, 50, &view(0, 0), &plain);
    translate_and_render_efficiently(&mut buffer, 0, 2, 1, 50, &view(2, 0), &plain);
    let mut right = PixelBuffer::new(PixelPlane::new(6, 4));
    render_complex_plane_into_buffer(&mut right, 1, 50, &view(2, 0), &plain);
    assert_eq!(buffer.colors, right.colors);
    translate_and_render_efficiently(&mut buffer, 1, 0, 1, 50, &view(2, -1), &plain);
    let mut up = PixelBuffer::new(PixelPlane::new(6, 4));
    render_complex_plane_into_buffer(&mut up, 1, 50, &view(2, -1), &plain);
    assert_eq!(buffer.colors, up.colors);
    assert_eq!(buffer.pixels, up.pixels);
}

#[test]
fn recenter_equals_full_render_around_the_new_center() {
    for (rows_up, columns_right) in [(2i16, 3i16), (-1, 4), (3, -2), (-2, -2), (0, 0), (0, 5), (-3, 0), (40, -40)] {
        let mut buffer = PixelBuffer::new(PixelPlane::new(9, 7));
        render_complex_plane_into_buffer(&mut buffer, 1, 50, &view(0, 0), &plain);
        let sideways = view(columns_right as i64, 0);
        let around = view(columns_right as i64, -(rows_up as i64));
        translate_to_center_and_render_efficiently(&mut buffer, rows_up, columns_right, 1, 50, &sideways, &around, &plain);
        let mut whole = PixelBuffer::new(PixelPlane::new(9, 7));
        render_complex_plane_into_buffer(&mut whole, 1, 50, &around, &plain);
        assert_eq!(buffer.colors, whole.colors);
        assert_eq!(buffer.pixels, whole.pixels);
    }
}
