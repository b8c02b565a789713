//! The color grid of a frame and the display pixels derived from it.

use crate::coloring::{ColorChannelMapping, TrueColor};
use crate::grid::{
    in_grid, index_of, lemma_grid_bounds, lemma_index_of_point, lemma_point_in_grid,
    lemma_point_of_index, point_of,
};
use crate::pixel_plane::PixelPlane;
use vstd::prelude::*;

verus! {

/// The display pixels of `colors` under `mapping`, cell by cell.
pub open spec fn displayed(colors: Seq<TrueColor>, mapping: ColorChannelMapping) -> Seq<u32> {
    Seq::new(colors.len(), |i: int| colors[i].packed(mapping))
}

/// The bytes of an RGB image of `colors` under `mapping`: three bytes per
/// color, the channels shown as red, green and blue in this order.
pub open spec fn image_bytes(colors: Seq<TrueColor>, mapping: ColorChannelMapping) -> Seq<u8> {
    Seq::new(
        3 * colors.len(),
        |k: int|
            if k % 3 == 0 {
                colors[k / 3].channel(mapping.letters().0)
            } else if k % 3 == 1 {
                colors[k / 3].channel(mapping.letters().1)
            } else {
                colors[k / 3].channel(mapping.letters().2)
            },
    )
}

/// The cell that stands at `(x, y)` after the grid's content moved `rows_up`
/// rows towards larger `y` and `columns_right` columns towards larger `x`:
/// the cell that comes from inside the grid, or else the one that stood there.
pub open spec fn cell_after_shift<T>(
    cells: Seq<T>,
    width: int,
    height: int,
    rows_up: int,
    columns_right: int,
    x: int,
    y: int,
) -> T {
    if in_grid(width, height, x - columns_right, y - rows_up) {
        cells[index_of(width, x - columns_right, y - rows_up)]
    } else {
        cells[index_of(width, x, y)]
    }
}

/// The grid `cells` after its content moved by `rows_up` rows and
/// `columns_right` columns. Cells whose content would come from outside the
/// grid keep what they held.
pub open spec fn shifted<T>(
    cells: Seq<T>,
    width: int,
    height: int,
    rows_up: int,
    columns_right: int,
) -> Seq<T> {
    Seq::new(
        cells.len(),
        |i: int|
            cell_after_shift(
                cells,
                width,
                height,
                rows_up,
                columns_right,
                point_of(width, i).0,
                point_of(width, i).1,
            ),
    )
}

/// How many cells of a line of `extent` cells keep a place when the line moves
/// by `shift` cells, and by how many cells it moves: `(0, 0)` when none stays.
fn kept_and_moved(extent: usize, shift: i128) -> (spans: (usize, usize))
    ensures
        -(extent as int) < shift < extent as int ==> spans.0 + spans.1 == extent && spans.1 == (if shift
            > 0 {
            shift as int
        } else {
            -shift
        }),
        !(-(extent as int) < shift < extent as int) ==> spans == (0usize, 0usize),
{
    if shift > 0 {
        if shift >= extent as i128 {
            (0, 0)
        } else {
            let moved: usize = shift as usize;
            (extent - moved, moved)
        }
    } else {
        if shift <= -(extent as i128) {
            (0, 0)
        } else {
            let moved: usize = (-shift) as usize;
            (extent - moved, moved)
        }
    }
}

/// Whether the line `at` of `extent` lines was already written once `done`
/// lines were, going from the last line backwards when `backwards` and from
/// the first line forwards otherwise.
spec fn line_done(extent: int, backwards: bool, done: int, at: int) -> bool {
    if backwards {
        at > extent - 1 - done
    } else {
        at < done
    }
}

/// Moves the content of the grid `cells` in place, reading every cell before
/// it is overwritten.
fn shift_cells<T: Copy>(
    cells: &mut Vec<T>,
    width: usize,
    height: usize,
    rows_up: i128,
    columns_right: i128,
)
    requires
        old(cells).len() == width * height,
    ensures
        final(cells)@ == shifted(
            old(cells)@,
            width as int,
            height as int,
            rows_up as int,
            columns_right as int,
        ),
{
    let ghost before = cells@;
    let cell_count: usize = cells.len();
    let ghost w = width as int;
    let ghost h = height as int;
    let ghost r = rows_up as int;
    let ghost c = columns_right as int;
    let (rows, dy) = kept_and_moved(height, rows_up);
    let (columns, dx) = kept_and_moved(width, columns_right);
    let down = rows_up > 0;
    let right = columns_right > 0;
    if rows == 0 || columns == 0 {
        proof {
            assert forall|i: int| 0 <= i < before.len() implies #[trigger] shifted(before, w, h, r, c)[i]
                == before[i] by {
                lemma_point_in_grid(w, h, i);
                lemma_index_of_point(w, i);
            }
            assert(cells@ =~= shifted(before, w, h, r, c));
        }
        return ;
    }
    let mut j: usize = 0;
    while j < rows
        invariant
            j <= rows,
            0 < rows,
            0 < columns,
            rows + dy == height,
            columns + dx == width,
            down == (rows_up > 0),
            right == (columns_right > 0),
            r == rows_up,
            c == columns_right,
            w == width,
            h == height,
            r == (if down {
                dy as int
            } else {
                -(dy as int)
            }),
            c == (if right {
                dx as int
            } else {
                -(dx as int)
            }),
            cells@.len() == before.len(),
            before.len() == width * height,
            before.len() == cell_count,
            forall|x: int, y: int|
                in_grid(w, h, x, y) ==> cells@[#[trigger] index_of(w, x, y)] == (if line_done(
                    h,
                    down,
                    j as int,
                    y,
                ) {
                    cell_after_shift(before, w, h, r, c, x, y)
                } else {
                    before[index_of(w, x, y)]
                }),
        decreases rows - j,
    {
        let y: usize = if down {
            height - 1 - j
        } else {
            j
        };
        let other_y: usize = if down {
            y - dy
        } else {
            y + dy
        };
        let mut k: usize = 0;
        while k < columns
            invariant
                k <= columns,
                j < rows,
                0 < columns,
                rows + dy == height,
                columns + dx == width,
                y == (if down {
                    height - 1 - j
                } else {
                    j as int
                }),
                other_y == y - r,
                r == (if down {
                    dy as int
                } else {
                    -(dy as int)
                }),
                c == (if right {
                    dx as int
                } else {
                    -(dx as int)
                }),
                w == width,
                h == height,
                cells@.len() == before.len(),
                before.len() == width * height,
                before.len() == cell_count,
            before.len() == cell_count,
                forall|x: int, z: int|
                    in_grid(w, h, x, z) ==> cells@[#[trigger] index_of(w, x, z)] == (if line_done(
                        h,
                        down,
                        j as int,
                        z,
                    ) || (z == y && line_done(w, right, k as int, x)) {
                        cell_after_shift(before, w, h, r, c, x, z)
                    } else {
                        before[index_of(w, x, z)]
                    }),
            decreases columns - k,
        {
            let x: usize = if right {
                width - 1 - k
            } else {
                k
            };
            let other_x: usize = if right {
                x - dx
            } else {
                x + dx
            };
            proof {
                lemma_grid_bounds(w, h, x as int, y as int);
                lemma_grid_bounds(w, h, other_x as int, other_y as int);
                assert(in_grid(w, h, other_x as int, other_y as int));
            }
            let index: usize = y * width + x;
            let other_index: usize = other_y * width + other_x;
            let ghost prior = cells@;
            assert(prior[index_of(w, other_x as int, other_y as int)] == before[index_of(
                w,
                other_x as int,
                other_y as int,
            )]);
            let moved = cells[other_index];
            cells.set(index, moved);
            proof {
                assert forall|x2: int, z: int| in_grid(w, h, x2, z) implies cells@[#[trigger] index_of(
                    w,
                    x2,
                    z,
                )] == (if line_done(h, down, j as int, z) || (z == y && line_done(
                    w,
                    right,
                    k + 1,
                    x2,
                )) {
                    cell_after_shift(before, w, h, r, c, x2, z)
                } else {
                    before[index_of(w, x2, z)]
                }) by {
                    lemma_point_of_index(w, x2, z);
                    lemma_point_of_index(w, x as int, y as int);
                    lemma_grid_bounds(w, h, x2, z);
                    if x2 == x && z == y {
                    } else {
                        assert(index_of(w, x2, z) != index_of(w, x as int, y as int));
                        assert(cells@[index_of(w, x2, z)] == prior[index_of(w, x2, z)]);
                    }
                }
            }
            k = k + 1;
        }
        proof {
            assert forall|x: int, z: int| in_grid(w, h, x, z) implies cells@[#[trigger] index_of(
                w,
                x,
                z,
            )] == (if line_done(h, down, j + 1, z) {
                cell_after_shift(before, w, h, r, c, x, z)
            } else {
                before[index_of(w, x, z)]
            }) by {
                if z == y && !line_done(w, right, columns as int, x) {
                    assert(!in_grid(w, h, x - c, z - r));
                }
            }
        }
        j = j + 1;
    }
    proof {
        assert forall|i: int| 0 <= i < before.len() implies cells@[i] == #[trigger] shifted(
            before,
            w,
            h,
            r,
            c,
        )[i] by {
            lemma_point_in_grid(w, h, i);
            lemma_index_of_point(w, i);
            let (x, y) = point_of(w, i);
            assert(cells@[index_of(w, x, y)] == cells@[i]);
            if !line_done(h, down, rows as int, y) {
                assert(!in_grid(w, h, x - c, y - r));
            }
        }
        assert(cells@ =~= shifted(before, w, h, r, c));
    }
}

/// A frame: its colors, row by row, and the display pixels derived from them.
#[derive(Clone, Debug)]
pub struct PixelBuffer {
    pub pixel_plane: PixelPlane,
    pub colors: Vec<TrueColor>,
    pub pixels: Vec<u32>,
    pub color_channel_mapping: ColorChannelMapping,
}

impl PixelBuffer {
    /// The buffer holds one color and one pixel for every cell of its plane.
    pub open spec fn wf(&self) -> bool {
        &&& self.colors@.len() == self.pixel_plane.width * self.pixel_plane.height
        &&& self.pixels@.len() == self.colors@.len()
    }

    /// The display pixels are those of the colors under the active mapping.
    pub open spec fn is_consistent(&self) -> bool {
        self.pixels@ == displayed(self.colors@, self.color_channel_mapping)
    }

    /// Tests whether the buffer holds one color and one pixel for every cell
    /// of its plane.
    pub fn is_well_formed(&self) -> (ok: bool)
        ensures
            ok == self.wf(),
    {
        let colors_len: usize = self.colors.len();
        let pixels_len: usize = self.pixels.len();
        match self.pixel_plane.width.checked_mul(self.pixel_plane.height) {
            Some(cells) => colors_len == cells && pixels_len == cells,
            None => false,
        }
    }

    /// A black frame for `pixel_plane`, shown with the mapping `RGB`.
    pub fn new(pixel_plane: PixelPlane) -> (buffer: PixelBuffer)
        requires
            pixel_plane.width * pixel_plane.height <= usize::MAX,
        ensures
            buffer.wf(),
            buffer.is_consistent(),
            buffer.pixel_plane == pixel_plane,
            buffer.color_channel_mapping == ColorChannelMapping::RGB,
            forall|i: int|
                0 <= i < buffer.colors@.len() ==> #[trigger] buffer.colors@[i] == (TrueColor {
                    red: 0,
                    green: 0,
                    blue: 0,
                }),
    {
        let black = TrueColor::new(0, 0, 0);
        let colors: Vec<TrueColor> = vec![black; pixel_plane.width * pixel_plane.height];
        let color_channel_mapping = ColorChannelMapping::RGB;
        let pixels: Vec<u32> = PixelBuffer::colors_to_pixels(colors.as_slice(), &color_channel_mapping);
        PixelBuffer { pixel_plane, colors, pixels, color_channel_mapping }
    }

    /// Converts a buffer index to a screen coordinate `(x, y)`.
    pub fn index_to_point(&self, index: usize) -> (point: (usize, usize))
        requires
            self.pixel_plane.width > 0,
        ensures
            (point.0 as int, point.1 as int) == point_of(self.pixel_plane.width as int, index as int),
            index_of(self.pixel_plane.width as int, point.0 as int, point.1 as int) == index,
            point.0 < self.pixel_plane.width,
    {
        proof {
            lemma_index_of_point(self.pixel_plane.width as int, index as int);
        }
        (index % self.pixel_plane.width, index / self.pixel_plane.width)
    }

    /// Converts a screen coordinate to a buffer index.
    pub fn point_to_index(&self, x: usize, y: usize) -> (index: usize)
        requires
            index_of(self.pixel_plane.width as int, x as int, y as int) <= usize::MAX,
        ensures
            index == index_of(self.pixel_plane.width as int, x as int, y as int),
            x < self.pixel_plane.width ==> point_of(self.pixel_plane.width as int, index as int) == (
                x as int,
                y as int,
            ),
    {
        proof {
            if x < self.pixel_plane.width {
                lemma_point_of_index(self.pixel_plane.width as int, x as int, y as int);
            }
            assert(y * self.pixel_plane.width >= 0) by (nonlinear_arith)
                requires
                    y >= 0,
                    self.pixel_plane.width >= 0,
            ;
        }
        y * self.pixel_plane.width + x
    }

    /// Converts colors to display pixels under `color_channel_mapping`.
    pub fn colors_to_pixels(colors: &[TrueColor], color_channel_mapping: &ColorChannelMapping) -> (pixels:
        Vec<u32>)
        ensures
            pixels@ == displayed(colors@, *color_channel_mapping),
    {
        let mut pixels: Vec<u32> = Vec::new();
        let mut i: usize = 0;
        while i < colors.len()
            invariant
                i <= colors.len(),
                pixels@.len() == i,
                forall|k: int| 0 <= k < i ==> #[trigger] pixels@[k] == colors@[k].packed(*color_channel_mapping),
            decreases colors.len() - i,
        {
            pixels.push(colors[i].to_32_bit(color_channel_mapping));
            i = i + 1;
        }
        assert(pixels@ =~= displayed(colors@, *color_channel_mapping));
        pixels
    }

    /// Rebuilds the display pixels from the colors.
    pub fn update_pixels(&mut self)
        ensures
            final(self).is_consistent(),
            final(self).colors == old(self).colors,
            final(self).pixel_plane == old(self).pixel_plane,
            final(self).color_channel_mapping == old(self).color_channel_mapping,
            old(self).wf() ==> final(self).wf(),
    {
        self.pixels = PixelBuffer::colors_to_pixels(self.colors.as_slice(), &self.color_channel_mapping);
    }

    /// The frame as the data of an 8-bit RGB image, row by row, with the
    /// channels reordered by the active mapping.
    pub fn image_data(&self) -> (data: Vec<u8>)
        ensures
            data@ == image_bytes(self.colors@, self.color_channel_mapping),
    {
        let (r_map, g_map, b_map) = self.color_channel_mapping.get_r_g_b_mapping();
        let mut data: Vec<u8> = Vec::new();
        let mut i: usize = 0;
        while i < self.colors.len()
            invariant
                i <= self.colors@.len(),
                (r_map, g_map, b_map) == self.color_channel_mapping.letters(),
                data@.len() == 3 * i,
                forall|k: int|
                    0 <= k < 3 * i ==> #[trigger] data@[k] == image_bytes(
                        self.colors@,
                        self.color_channel_mapping,
                    )[k],
            decreases self.colors@.len() - i,
        {
            let color = self.colors[i];
            data.push(color.get_color(r_map));
            data.push(color.get_color(g_map));
            data.push(color.get_color(b_map));
            i = i + 1;
        }
        assert(data@ =~= image_bytes(self.colors@, self.color_channel_mapping));
        data
    }

    /// Moves the picture by `rows_up` rows towards larger `y` and by
    /// `columns_right` columns towards larger `x`, colors and pixels alike.
    /// Nothing is computed: what leaves the grid is lost, and the cells that
    /// nothing moves into keep what they held, to be rendered anew.
    pub fn translate_buffer(&mut self, rows_up: i128, columns_right: i128)
        requires
            old(self).wf(),
        ensures
            final(self).wf(),
            final(self).pixel_plane == old(self).pixel_plane,
            final(self).color_channel_mapping == old(self).color_channel_mapping,
            final(self).colors@ == shifted(
                old(self).colors@,
                old(self).pixel_plane.width as int,
                old(self).pixel_plane.height as int,
                rows_up as int,
                columns_right as int,
            ),
            final(self).pixels@ == shifted(
                old(self).pixels@,
                old(self).pixel_plane.width as int,
                old(self).pixel_plane.height as int,
                rows_up as int,
                columns_right as int,
            ),
            old(self).is_consistent() ==> final(self).is_consistent(),
    {
        let width: usize = self.pixel_plane.width;
        let height: usize = self.pixel_plane.height;
        shift_cells(&mut self.colors, width, height, rows_up, columns_right);
        shift_cells(&mut self.pixels, width, height, rows_up, columns_right);
        proof {
            if old(self).is_consistent() {
                let w = width as int;
                let h = height as int;
                assert forall|i: int| 0 <= i < self.colors@.len() implies #[trigger] self.pixels@[i]
                    == self.colors@[i].packed(self.color_channel_mapping) by {
                    lemma_point_in_grid(w, h, i);
                    lemma_index_of_point(w, i);
                    let (x, y) = point_of(w, i);
                    if in_grid(w, h, x - columns_right, y - rows_up) {
                        lemma_grid_bounds(w, h, x - columns_right, y - rows_up);
                    }
                }
                assert(self.pixels@ =~= displayed(self.colors@, self.color_channel_mapping));
            }
        }
    }
}

} // verus!
