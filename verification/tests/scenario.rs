use mandelbrot::coloring::TrueColor;
use mandelbrot::pixel_buffer::PixelBuffer;
use mandelbrot::pixel_plane::PixelPlane;
use mandelbrot::rendering::render_complex_plane_into_buffer;

/// The escape time of the point `re + im i`: the number of steps of
/// `z -> z * z + c` from 0 that stay within `orbit_radius`.
fn iterate(re: f64, im: f64, max_iterations: u32, orbit_radius: f64) -> u32 {
    let (mut x, mut y) = (0.0f64, 0.0f64);
    let mut iterations = 0;
    for _ in 0..max_iterations {
        let next_x = x * x - y * y + re;
        let next_y = 2.0 * x * y + im;
        x = next_x;
        y = next_y;
        if x * x + y * y > orbit_radius * orbit_radius {
            break;
        }
        iterations += 1;
    }
    iterations
}

/// The samples of the starting view of a frame of `width` by `height`
/// pixels: the real axis from -2 to 0.5, square pixels, no jitter.
fn starting_view(width: usize, height: usize, max_iterations: u32, orbit_radius: f64) -> impl Fn(usize, usize) -> u32 {
    let length_x = 2.5f64;
    let min_x = -2.0f64;
    let min_y = -(length_x * (height as f64 / width as f64) / 2.0);
    let increment_x = length_x / width as f64;
    let increment_y = -2.0 * min_y / height as f64;
    move |x: usize, y: usize| {
        let re = min_x + x as f64 * increment_x;
        let im = -(min_y + y as f64 * increment_y);
        iterate(re, im, max_iterations, orbit_radius)
    }
}

/// Iterations as a gray level, black inside the set.
fn gray(iterations: u32, max_iterations: u32) -> TrueColor {
    if iterations >= max_iterations {
        TrueColor::new(0, 0, 0)
    } else {
        let level = (iterations * 255 / max_iterations) as u8;
        TrueColor::new(level, level, level)
    }
}

#[test]
fn center_of_the_starting_view_is_inside_the_set() {
    let mut buffer = PixelBuffer::new(PixelPlane::new(100, 100));
    render_complex_plane_into_buffer(&mut buffer, 1, 50, &starting_view(100, 100, 50, 2.0), &gray);
    let center = buffer.colors[buffer.point_to_index(50, 50)];
    assert_eq!(center, gray(50, 50));
    assert_eq!(center, TrueColor::new(0, 0, 0));
    assert_eq!(buffer.pixels[buffer.point_to_index(50, 50)], 0);
}

#[test]
fn corner_of_the_starting_view_escapes_at_once() {
    let mut buffer = PixelBuffer::new(PixelPlane::new(100, 100));
    render_complex_plane_into_buffer(&mut buffer, 1, 50, &starting_view(100, 100, 50, 2.0), &gray);
    assert_eq!(buffer.colors[0], gray(0, 50));
    let far_left = buffer.colors[buffer.point_to_index(0, 50)];
    assert_eq!(far_left, gray(50, 50));
}
