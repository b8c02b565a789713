//! The tiled renderer: the region to render, the supersampling of one pixel,
//! the rendering of one row, and the passes that fill a buffer or the strip
//! that a pan exposed.

use crate::coloring::{average_of, TrueColor};
use crate::grid::{in_grid, index_of, lemma_grid_bounds, lemma_point_of_index};
use crate::merge::{
    chunks_fit, copy_row, has_distinct_rows, has_full_rows, lemma_merged_cell, lemma_merged_len,
    merge_chunks,
};
use crate::pixel_buffer::{shifted, PixelBuffer};
use crate::pixel_plane::PixelPlane;
use crate::work_queue::WorkQueue;
use vstd::prelude::*;

verus! {

/// A box of pixel coordinates, `[min_x, max_x]` by `[min_y, max_y]`, bounds
/// included: the part of a buffer that a render pass computes.
#[derive(Clone, Copy, Debug, PartialEq, Eq, Structural)]
pub struct RenderBox {
    pub min_x: usize,
    pub max_x: usize,
    pub min_y: usize,
    pub max_y: usize,
}

impl RenderBox {
    /// Whether the point `(x, y)` is inside the box.
    pub open spec fn holds(&self, x: int, y: int) -> bool {
        self.min_x <= x <= self.max_x && self.min_y <= y <= self.max_y
    }

    pub fn new(min_x: usize, max_x: usize, min_y: usize, max_y: usize) -> (render_box: RenderBox)
        ensures
            render_box == (RenderBox { min_x, max_x, min_y, max_y }),
    {
        RenderBox { min_x, max_x, min_y, max_y }
    }

    /// The area spanned by the corners of the box.
    pub fn compute_pixel_count(&self) -> (count: usize)
        requires
            self.min_x <= self.max_x,
            self.min_y <= self.max_y,
            (self.max_x - self.min_x) * (self.max_y - self.min_y) <= usize::MAX,
        ensures
            count == (self.max_x - self.min_x) * (self.max_y - self.min_y),
    {
        (self.max_x - self.min_x) * (self.max_y - self.min_y)
    }

    /// Returns whether the point (x,y) is inside the `RenderBox`.
    pub fn contains(&self, point: (usize, usize)) -> (inside: bool)
        ensures
            inside == self.holds(point.0 as int, point.1 as int),
    {
        !(point.0 < self.min_x || point.0 > self.max_x || point.1 < self.min_y || point.1
            > self.max_y)
    }
}

/// The number of samples taken per pixel for a requested amount: at least 1
/// and at most 64.
pub open spec fn samples_per_pixel(supersampling_amount: u8) -> int {
    if supersampling_amount < 1 {
        1
    } else if supersampling_amount > 64 {
        64
    } else {
        supersampling_amount as int
    }
}

/// Whether one sample of the pixel `(x, y)` may have the color `color`: the
/// color that `coloring` gives to an iteration count that `escape_time` gives
/// to the pixel.
pub open spec fn is_sample<E: Fn(usize, usize) -> u32, C: Fn(u32, u32) -> TrueColor>(
    escape_time: E,
    coloring: C,
    max_iterations: u32,
    x: usize,
    y: usize,
    color: TrueColor,
) -> bool {
    exists|iterations: u32| #[trigger]
        escape_time.ensures((x, y), iterations) && coloring.ensures(
            (iterations, max_iterations),
            color,
        )
}

/// Whether the pixel `(x, y)` may have the color `color` after supersampling:
/// the average of `amount` samples of the pixel.
pub open spec fn is_supersampled<E: Fn(usize, usize) -> u32, C: Fn(u32, u32) -> TrueColor>(
    escape_time: E,
    coloring: C,
    max_iterations: u32,
    amount: int,
    x: usize,
    y: usize,
    color: TrueColor,
) -> bool {
    exists|samples: Seq<TrueColor>|
        {
            &&& samples.len() == amount
            &&& forall|k: int|
                0 <= k < amount ==> is_sample(
                    escape_time,
                    coloring,
                    max_iterations,
                    x,
                    y,
                    #[trigger] samples[k],
                )
            &&& color == average_of(samples)
        }
}

/// Whether every iteration count that `escape_time` gives may be handed to
/// `coloring` together with `max_iterations`.
pub open spec fn can_color<E: Fn(usize, usize) -> u32, C: Fn(u32, u32) -> TrueColor>(
    escape_time: E,
    coloring: C,
    max_iterations: u32,
) -> bool {
    forall|x: usize, y: usize, iterations: u32| #[trigger]
        escape_time.ensures((x, y), iterations) ==> coloring.requires(
            (iterations, max_iterations),
        )
}

/// The anti-aliased color of the pixel `(x, y)`: the average of
/// `supersampling_amount` samples, clamped to 1..=64.
pub fn supersample<E: Fn(usize, usize) -> u32, C: Fn(u32, u32) -> TrueColor>(
    x: usize,
    y: usize,
    supersampling_amount: u8,
    max_iterations: u32,
    escape_time: &E,
    coloring: &C,
) -> (color: TrueColor)
    requires
        escape_time.requires((x, y)),
        can_color(*escape_time, *coloring, max_iterations),
    ensures
        is_supersampled(
            *escape_time,
            *coloring,
            max_iterations,
            samples_per_pixel(supersampling_amount),
            x,
            y,
            color,
        ),
{
    let amount: u8 = if supersampling_amount < 1 {
        1
    } else if supersampling_amount > 64 {
        64
    } else {
        supersampling_amount
    };
    let mut colors: Vec<TrueColor> = Vec::new();
    let mut taken: u8 = 0;
    while taken < amount
        invariant
            taken <= amount,
            colors@.len() == taken,
            escape_time.requires((x, y)),
            can_color(*escape_time, *coloring, max_iterations),
            forall|k: int|
                0 <= k < taken ==> is_sample(
                    *escape_time,
                    *coloring,
                    max_iterations,
                    x,
                    y,
                    #[trigger] colors@[k],
                ),
        decreases amount - taken,
    {
        let iterations: u32 = escape_time(x, y);
        let color = coloring(iterations, max_iterations);
        colors.push(color);
        taken = taken + 1;
    }
    TrueColor::average(&colors)
}

/// Whether `after` is the row `row` of a frame after a pass over `render_box`
/// that found the row as `before`: the cells inside the box hold supersampled
/// colors, the others what they held.
pub open spec fn is_rendered_row<E: Fn(usize, usize) -> u32, C: Fn(u32, u32) -> TrueColor>(
    before: Seq<TrueColor>,
    after: Seq<TrueColor>,
    row: usize,
    render_box: RenderBox,
    amount: int,
    max_iterations: u32,
    escape_time: E,
    coloring: C,
) -> bool {
    &&& after.len() == before.len()
    &&& forall|x: int|
        0 <= x < before.len() ==> if render_box.holds(x, row as int) {
            is_supersampled(
                escape_time,
                coloring,
                max_iterations,
                amount,
                x as usize,
                row,
                #[trigger] after[x],
            )
        } else {
            after[x] == before[x]
        }
}

/// Whether `escape_time` may be called on every pixel of the first `width`
/// columns of row `row` that lies inside `render_box`.
pub open spec fn can_sample_row<E: Fn(usize, usize) -> u32>(
    escape_time: E,
    render_box: RenderBox,
    width: int,
    row: usize,
) -> bool {
    forall|x: usize|
        x < width && render_box.holds(x as int, row as int) ==> #[trigger] escape_time.requires(
            (x, row),
        )
}

/// Renders one row of a frame: every pixel of `chunk` inside `render_box` gets
/// its supersampled color, every other pixel stays as it is.
pub fn render_chunk<E: Fn(usize, usize) -> u32, C: Fn(u32, u32) -> TrueColor>(
    chunk: Vec<TrueColor>,
    current_chunk: usize,
    render_box: RenderBox,
    supersampling_amount: u8,
    max_iterations: u32,
    escape_time: &E,
    coloring: &C,
) -> (rendered: Vec<TrueColor>)
    requires
        can_sample_row(*escape_time, render_box, chunk@.len() as int, current_chunk),
        can_color(*escape_time, *coloring, max_iterations),
    ensures
        is_rendered_row(
            chunk@,
            rendered@,
            current_chunk,
            render_box,
            samples_per_pixel(supersampling_amount),
            max_iterations,
            *escape_time,
            *coloring,
        ),
{
    let ghost before = chunk@;
    let mut chunk = chunk;
    let mut i: usize = 0;
    while i < chunk.len()
        invariant
            i <= chunk.len(),
            chunk@.len() == before.len(),
            can_sample_row(*escape_time, render_box, before.len() as int, current_chunk),
            can_color(*escape_time, *coloring, max_iterations),
            forall|x: int| i <= x < before.len() ==> chunk@[x] == before[x],
            forall|x: int|
                0 <= x < i ==> if render_box.holds(x, current_chunk as int) {
                    is_supersampled(
                        *escape_time,
                        *coloring,
                        max_iterations,
                        samples_per_pixel(supersampling_amount),
                        x as usize,
                        current_chunk,
                        #[trigger] chunk@[x],
                    )
                } else {
                    chunk@[x] == before[x]
                },
        decreases chunk.len() - i,
    {
        if render_box.contains((i, current_chunk)) {
            let color = supersample(
                i,
                current_chunk,
                supersampling_amount,
                max_iterations,
                escape_time,
                coloring,
            );
            chunk.set(i, color);
        }
        i = i + 1;
    }
    chunk
}

/// Whether `escape_time` may be called on every pixel of the grid that lies
/// inside `render_box`.
pub open spec fn can_sample<E: Fn(usize, usize) -> u32>(
    escape_time: E,
    render_box: RenderBox,
    width: int,
    height: int,
) -> bool {
    forall|x: usize, y: usize|
        x < width && y < height && render_box.holds(x as int, y as int)
            ==> #[trigger] escape_time.requires((x, y))
}

/// Whether `after` is the frame `before` after a render pass over
/// `render_box`: every pixel inside the box holds the average of `amount`
/// samples, every other pixel the color it held, and the display pixels are
/// those of the colors.
pub open spec fn is_rendered<E: Fn(usize, usize) -> u32, C: Fn(u32, u32) -> TrueColor>(
    before: PixelBuffer,
    after: PixelBuffer,
    render_box: RenderBox,
    amount: int,
    max_iterations: u32,
    escape_time: E,
    coloring: C,
) -> bool {
    &&& after.wf()
    &&& after.is_consistent()
    &&& after.pixel_plane == before.pixel_plane
    &&& after.color_channel_mapping == before.color_channel_mapping
    &&& forall|x: int, y: int|
        in_grid(before.pixel_plane.width as int, before.pixel_plane.height as int, x, y) ==> if render_box.holds(
            x,
            y,
        ) {
            is_supersampled(
                escape_time,
                coloring,
                max_iterations,
                amount,
                x as usize,
                y as usize,
                after.colors@[#[trigger] index_of(before.pixel_plane.width as int, x, y)],
            )
        } else {
            after.colors@[index_of(before.pixel_plane.width as int, x, y)]
                == before.colors@[index_of(before.pixel_plane.width as int, x, y)]
        }
}

/// Renders the part of the frame inside `render_box` and leaves the rest as it
/// is. The rows are claimed one by one from a work queue, rendered, merged
/// back, and the display pixels rebuilt. A sample of the pixel `(x, y)` is
/// `coloring(escape_time(x, y), max_iterations)`; a pixel gets the average of
/// `supersampling_amount` samples, clamped to 1..=64.
pub fn render_box_render_complex_plane_into_buffer<
    E: Fn(usize, usize) -> u32,
    C: Fn(u32, u32) -> TrueColor,
>(
    p: &mut PixelBuffer,
    render_box: RenderBox,
    supersampling_amount: u8,
    max_iterations: u32,
    escape_time: &E,
    coloring: &C,
)
    requires
        old(p).wf(),
        can_sample(
            *escape_time,
            render_box,
            old(p).pixel_plane.width as int,
            old(p).pixel_plane.height as int,
        ),
        can_color(*escape_time, *coloring, max_iterations),
    ensures
        is_rendered(
            *old(p),
            *final(p),
            render_box,
            samples_per_pixel(supersampling_amount),
            max_iterations,
            *escape_time,
            *coloring,
        ),
{
    let width: usize = p.pixel_plane.width;
    let height: usize = p.pixel_plane.height;
    let chunks_len: usize = if width == 0 {
        0
    } else {
        height
    };
    let ghost w = width as int;
    let ghost h = height as int;
    let ghost before = p.colors@;
    let ghost amount = samples_per_pixel(supersampling_amount);
    let mut queue = WorkQueue::new(chunks_len);
    let mut thread_chunks: Vec<(usize, Vec<TrueColor>)> = Vec::new();
    loop
        invariant
            *p == *old(p),
            p.wf(),
            before == p.colors@,
            w == width,
            h == height,
            width == p.pixel_plane.width,
            height == p.pixel_plane.height,
            amount == samples_per_pixel(supersampling_amount),
            chunks_len == (if width == 0 {
                0
            } else {
                height as int
            }),
            queue.chunks_len == chunks_len,
            queue.next_chunk == thread_chunks@.len(),
            queue.next_chunk <= chunks_len,
            can_sample(*escape_time, render_box, w, h),
            can_color(*escape_time, *coloring, max_iterations),
            forall|k: int|
                0 <= k < thread_chunks@.len() ==> (#[trigger] thread_chunks@[k]).0 == k
                    && is_rendered_row(
                    before.subrange(k * w, k * w + w),
                    thread_chunks@[k].1@,
                    k as usize,
                    render_box,
                    amount,
                    max_iterations,
                    *escape_time,
                    *coloring,
                ),
        ensures
            queue.next_chunk == chunks_len,
        decreases chunks_len - queue.next_chunk,
    {
        match queue.claim() {
            None => {
                break ;
            },
            Some(current_chunk) => {
                proof {
                    lemma_grid_bounds(w, h, 0, current_chunk as int);
                    lemma_grid_bounds(w, h, w - 1, current_chunk as int);
                }
                let chunk = copy_row(&p.colors, width, current_chunk);
                let chunk = render_chunk(
                    chunk,
                    current_chunk,
                    render_box,
                    supersampling_amount,
                    max_iterations,
                    escape_time,
                    coloring,
                );
                thread_chunks.push((current_chunk, chunk));
            },
        }
    }
    proof {
        assert(has_distinct_rows(thread_chunks@));
        assert(has_full_rows(thread_chunks@, w)) by {
            assert forall|k: int| 0 <= k < thread_chunks@.len() implies (#[trigger] thread_chunks@[k]).1@.len()
                == w by {
                lemma_grid_bounds(w, h, w - 1, k);
                assert(before.subrange(k * w, k * w + w).len() == w);
            }
        }
        assert(chunks_fit(thread_chunks@, w, before.len() as int)) by {
            assert forall|k: int| 0 <= k < thread_chunks@.len() implies (#[trigger] thread_chunks@[k]).0
                * w + thread_chunks@[k].1@.len() <= before.len() by {
                lemma_grid_bounds(w, h, w - 1, k);
            }
        }
    }
    merge_chunks(p, &thread_chunks);
    p.update_pixels();
    proof {
        lemma_merged_len(before, w, thread_chunks@);
        assert forall|x: int, y: int| in_grid(w, h, x, y) implies if render_box.holds(x, y) {
            is_supersampled(
                *escape_time,
                *coloring,
                max_iterations,
                amount,
                x as usize,
                y as usize,
                p.colors@[#[trigger] index_of(w, x, y)],
            )
        } else {
            p.colors@[index_of(w, x, y)] == before[index_of(w, x, y)]
        } by {
            lemma_grid_bounds(w, h, x, y);
            lemma_grid_bounds(w, h, w - 1, y);
            lemma_merged_cell(before, w, thread_chunks@, y, x);
            assert(thread_chunks@[y].0 == y);
            assert(before.subrange(y * w, y * w + w)[x] == before[index_of(w, x, y)]);
        }
    }
}

/// The box that takes in the whole grid of `pixel_plane`.
pub open spec fn full_box(pixel_plane: PixelPlane) -> RenderBox {
    RenderBox { min_x: 0, max_x: pixel_plane.width, min_y: 0, max_y: pixel_plane.height }
}

/// Whether `after` is a frame for the plane and the mapping of `before` in
/// which every pixel holds the average of `amount` samples, with the display
/// pixels of these colors.
pub open spec fn is_fully_rendered<E: Fn(usize, usize) -> u32, C: Fn(u32, u32) -> TrueColor>(
    before: PixelBuffer,
    after: PixelBuffer,
    amount: int,
    max_iterations: u32,
    escape_time: E,
    coloring: C,
) -> bool {
    &&& after.wf()
    &&& after.is_consistent()
    &&& after.pixel_plane == before.pixel_plane
    &&& after.color_channel_mapping == before.color_channel_mapping
    &&& forall|x: int, y: int|
        in_grid(before.pixel_plane.width as int, before.pixel_plane.height as int, x, y)
            ==> is_supersampled(
            escape_time,
            coloring,
            max_iterations,
            amount,
            x as usize,
            y as usize,
            after.colors@[#[trigger] index_of(before.pixel_plane.width as int, x, y)],
        )
}

/// Renders the whole frame: every pixel gets the average of
/// `supersampling_amount` samples, clamped to 1..=64, and the display pixels
/// are rebuilt.
pub fn render_complex_plane_into_buffer<E: Fn(usize, usize) -> u32, C: Fn(u32, u32) -> TrueColor>(
    p: &mut PixelBuffer,
    supersampling_amount: u8,
    max_iterations: u32,
    escape_time: &E,
    coloring: &C,
)
    requires
        old(p).wf(),
        can_sample(
            *escape_time,
            full_box(old(p).pixel_plane),
            old(p).pixel_plane.width as int,
            old(p).pixel_plane.height as int,
        ),
        can_color(*escape_time, *coloring, max_iterations),
    ensures
        is_fully_rendered(
            *old(p),
            *final(p),
            samples_per_pixel(supersampling_amount),
            max_iterations,
            *escape_time,
            *coloring,
        ),
{
    let render_box = RenderBox::new(0, p.pixel_plane.width, 0, p.pixel_plane.height);
    render_box_render_complex_plane_into_buffer(
        p,
        render_box,
        supersampling_amount,
        max_iterations,
        escape_time,
        coloring,
    );
}

/// Whether the cell `(x, y)` of the grid is left without content when the
/// picture moves by `rows` rows and `columns` columns: nothing inside the grid
/// moves into it.
pub open spec fn is_exposed(width: int, height: int, rows: int, columns: int, x: int, y: int) -> bool {
    in_grid(width, height, x, y) && !in_grid(width, height, x - columns, y - rows)
}

/// The smaller of the size of a shift and the extent of the grid along it.
fn strip_width(shift: i128, extent: usize) -> (strip: usize)
    ensures
        strip as int == (if shift >= extent as int || -shift >= extent as int {
            extent as int
        } else if shift >= 0 {
            shift as int
        } else {
            -shift
        }),
{
    if shift >= extent as i128 || shift <= -(extent as i128) {
        extent
    } else if shift >= 0 {
        shift as usize
    } else {
        (-shift) as usize
    }
}

/// The strip of the grid that is left without content when the picture moves
/// along one axis by `rows` rows or by `columns` columns: as wide as the shift,
/// as long as the grid. `None` when no cell is exposed.
pub fn exposed_strip(pixel_plane: &PixelPlane, rows: i128, columns: i128) -> (strip: Option<RenderBox>)
    requires
        rows == 0 || columns == 0,
    ensures
        strip.is_none() <==> (rows == 0 && columns == 0) || pixel_plane.width == 0
            || pixel_plane.height == 0,
        strip.is_some() ==> forall|x: int, y: int|
            strip.unwrap().holds(x, y) <==> is_exposed(
                pixel_plane.width as int,
                pixel_plane.height as int,
                rows as int,
                columns as int,
                x,
                y,
            ),
{
    let width: usize = pixel_plane.width;
    let height: usize = pixel_plane.height;
    if (rows == 0 && columns == 0) || width == 0 || height == 0 {
        None
    } else if rows == 0 {
        let strip: usize = strip_width(columns, width);
        if columns > 0 {
            Some(RenderBox::new(0, strip - 1, 0, height - 1))
        } else {
            Some(RenderBox::new(width - strip, width - 1, 0, height - 1))
        }
    } else {
        let strip: usize = strip_width(rows, height);
        if rows > 0 {
            Some(RenderBox::new(0, width - 1, 0, strip - 1))
        } else {
            Some(RenderBox::new(0, width - 1, height - strip, height - 1))
        }
    }
}

/// Whether `escape_time` may be called on every cell that a move by `rows`
/// rows and `columns` columns exposes.
pub open spec fn can_sample_exposed<E: Fn(usize, usize) -> u32>(
    escape_time: E,
    width: int,
    height: int,
    rows: int,
    columns: int,
) -> bool {
    forall|x: usize, y: usize|
        is_exposed(width, height, rows, columns, x as int, y as int)
            ==> #[trigger] escape_time.requires((x, y))
}

/// Whether `after` is the frame `before` after a pan that moved the picture by
/// `rows` rows and `columns` columns: every exposed pixel holds the average of
/// `amount` samples, every other pixel the color that moved into it, and the
/// display pixels are those of the colors.
pub open spec fn is_panned<E: Fn(usize, usize) -> u32, C: Fn(u32, u32) -> TrueColor>(
    before: PixelBuffer,
    after: PixelBuffer,
    rows: int,
    columns: int,
    amount: int,
    max_iterations: u32,
    escape_time: E,
    coloring: C,
) -> bool {
    &&& after.wf()
    &&& after.is_consistent()
    &&& after.pixel_plane == before.pixel_plane
    &&& after.color_channel_mapping == before.color_channel_mapping
    &&& forall|x: int, y: int|
        in_grid(before.pixel_plane.width as int, before.pixel_plane.height as int, x, y) ==> if is_exposed(
            before.pixel_plane.width as int,
            before.pixel_plane.height as int,
            rows,
            columns,
            x,
            y,
        ) {
            is_supersampled(
                escape_time,
                coloring,
                max_iterations,
                amount,
                x as usize,
                y as usize,
                after.colors@[#[trigger] index_of(before.pixel_plane.width as int, x, y)],
            )
        } else {
            after.colors@[index_of(before.pixel_plane.width as int, x, y)]
                == before.colors@[index_of(before.pixel_plane.width as int, x - columns, y - rows)]
        }
}

/// Pans along one axis: moves the picture by `rows` rows or by `columns`
/// columns, then renders the strip that the move exposed and nothing else.
pub fn translate_and_render_complex_plane_buffer<
    E: Fn(usize, usize) -> u32,
    C: Fn(u32, u32) -> TrueColor,
>(
    p: &mut PixelBuffer,
    rows: i128,
    columns: i128,
    supersampling_amount: u8,
    max_iterations: u32,
    escape_time: &E,
    coloring: &C,
)
    requires
        old(p).wf(),
        rows == 0 || columns == 0,
        can_sample_exposed(
            *escape_time,
            old(p).pixel_plane.width as int,
            old(p).pixel_plane.height as int,
            rows as int,
            columns as int,
        ),
        can_color(*escape_time, *coloring, max_iterations),
    ensures
        is_panned(
            *old(p),
            *final(p),
            rows as int,
            columns as int,
            samples_per_pixel(supersampling_amount),
            max_iterations,
            *escape_time,
            *coloring,
        ),
{
    let ghost w = p.pixel_plane.width as int;
    let ghost h = p.pixel_plane.height as int;
    let ghost before = p.colors@;
    let strip = exposed_strip(&p.pixel_plane, rows, columns);
    p.translate_buffer(rows, columns);
    let ghost moved = p.colors@;
    match strip {
        Some(render_box) => {
            render_box_render_complex_plane_into_buffer(
                p,
                render_box,
                supersampling_amount,
                max_iterations,
                escape_time,
                coloring,
            );
        },
        None => {
            p.update_pixels();
        },
    }
    proof {
        assert forall|x: int, y: int| in_grid(w, h, x, y) implies if is_exposed(
            w,
            h,
            rows as int,
            columns as int,
            x,
            y,
        ) {
            is_supersampled(
                *escape_time,
                *coloring,
                max_iterations,
                samples_per_pixel(supersampling_amount),
                x as usize,
                y as usize,
                p.colors@[#[trigger] index_of(w, x, y)],
            )
        } else {
            p.colors@[index_of(w, x, y)] == before[index_of(w, x - columns, y - rows)]
        } by {
            lemma_grid_bounds(w, h, x, y);
            lemma_point_of_index(w, x, y);
            assert(moved[index_of(w, x, y)] == shifted(before, w, h, rows as int, columns as int)[index_of(
                w,
                x,
                y,
            )]);
        }
    }
}

/// Pans the view by `rows_up` rows upwards or by `columns_right` columns to
/// the right, of which at least one is 0: the picture moves the other way and
/// the strip that comes into view is rendered.
pub fn translate_and_render_efficiently<E: Fn(usize, usize) -> u32, C: Fn(u32, u32) -> TrueColor>(
    p: &mut PixelBuffer,
    rows_up: i16,
    columns_right: i16,
    supersampling_amount: u8,
    max_iterations: u32,
    escape_time: &E,
    coloring: &C,
)
    requires
        old(p).wf(),
        rows_up == 0 || columns_right == 0,
        can_sample_exposed(
            *escape_time,
            old(p).pixel_plane.width as int,
            old(p).pixel_plane.height as int,
            rows_up as int,
            -(columns_right as int),
        ),
        can_color(*escape_time, *coloring, max_iterations),
    ensures
        is_panned(
            *old(p),
            *final(p),
            rows_up as int,
            -(columns_right as int),
            samples_per_pixel(supersampling_amount),
            max_iterations,
            *escape_time,
            *coloring,
        ),
{
    translate_and_render_complex_plane_buffer(
        p,
        rows_up as i128,
        -(columns_right as i128),
        supersampling_amount,
        max_iterations,
        escape_time,
        coloring,
    );
}

/// Whether `after` is the frame `before` after a move of the view to a new
/// center in two pans, first by `columns` columns, then by `rows` rows: the
/// strip of the first pan sampled with `between`, that of the second with
/// `escape_time`.
pub open spec fn is_recentered<
    B: Fn(usize, usize) -> u32,
    E: Fn(usize, usize) -> u32,
    C: Fn(u32, u32) -> TrueColor,
>(
    before: PixelBuffer,
    after: PixelBuffer,
    rows: int,
    columns: int,
    amount: int,
    max_iterations: u32,
    between: B,
    escape_time: E,
    coloring: C,
) -> bool {
    exists|halfway: PixelBuffer|
        {
            &&& #[trigger] is_panned(
                before,
                halfway,
                0,
                columns,
                amount,
                max_iterations,
                between,
                coloring,
            )
            &&& is_panned(
                halfway,
                after,
                rows,
                0,
                amount,
                max_iterations,
                escape_time,
                coloring,
            )
        }
}

/// Moves the view to a new center that lies `columns_right` columns to the
/// right and `rows_up` rows above the old one, in two pans, one per axis:
/// first the columns, with the samples `between` of the view that has moved
/// sideways only, then the rows, with the samples `escape_time` of the view
/// around the new center.
pub fn translate_to_center_and_render_efficiently<
    B: Fn(usize, usize) -> u32,
    E: Fn(usize, usize) -> u32,
    C: Fn(u32, u32) -> TrueColor,
>(
    p: &mut PixelBuffer,
    rows_up: i16,
    columns_right: i16,
    supersampling_amount: u8,
    max_iterations: u32,
    between: &B,
    escape_time: &E,
    coloring: &C,
)
    requires
        old(p).wf(),
        can_sample_exposed(
            *between,
            old(p).pixel_plane.width as int,
            old(p).pixel_plane.height as int,
            0,
            -(columns_right as int),
        ),
        can_sample_exposed(
            *escape_time,
            old(p).pixel_plane.width as int,
            old(p).pixel_plane.height as int,
            rows_up as int,
            0,
        ),
        can_color(*between, *coloring, max_iterations),
        can_color(*escape_time, *coloring, max_iterations),
    ensures
        is_recentered(
            *old(p),
            *final(p),
            rows_up as int,
            -(columns_right as int),
            samples_per_pixel(supersampling_amount),
            max_iterations,
            *between,
            *escape_time,
            *coloring,
        ),
{
    translate_and_render_efficiently(
        p,
        0,
        columns_right,
        supersampling_amount,
        max_iterations,
        between,
        coloring,
    );
    let ghost halfway = *p;
    translate_and_render_efficiently(
        p,
        rows_up,
        0,
        supersampling_amount,
        max_iterations,
        escape_time,
        coloring,
    );
    assert(is_panned(
        *old(p),
        halfway,
        0,
        -(columns_right as int),
        samples_per_pixel(supersampling_amount),
        max_iterations,
        *between,
        *coloring,
    ));
}

} // verus!
