//! Render passes whose samples are free of chance: the picture that they
//! leave in a frame, and why a pan leaves the picture that a render of the
//! whole frame would.

use crate::coloring::{average_of, lemma_average_of_copies, TrueColor};
use crate::grid::{in_grid, index_of, lemma_index_of_point, lemma_point_in_grid, point_of};
use crate::pixel_buffer::PixelBuffer;
use crate::rendering::{
    full_box, is_exposed, is_fully_rendered, is_panned, is_recentered, is_rendered, is_sample,
    is_supersampled,
};
use vstd::prelude::*;

verus! {

/// Whether sampling is free of chance and the picture it draws is `shade`:
/// every sample of the pixel `(x, y)` has the color `shade(x, y)`.
pub open spec fn samples_as<E: Fn(usize, usize) -> u32, C: Fn(u32, u32) -> TrueColor>(
    escape_time: E,
    coloring: C,
    max_iterations: u32,
    shade: spec_fn(int, int) -> TrueColor,
) -> bool {
    forall|x: usize, y: usize, color: TrueColor|
        #![trigger is_sample(escape_time, coloring, max_iterations, x, y, color)]
        is_sample(escape_time, coloring, max_iterations, x, y, color) ==> color == shade(
            x as int,
            y as int,
        )
}

/// Whether every pixel of the frame holds the color that `shade` gives it.
pub open spec fn shows(buffer: PixelBuffer, shade: spec_fn(int, int) -> TrueColor) -> bool {
    forall|x: int, y: int|
        in_grid(buffer.pixel_plane.width as int, buffer.pixel_plane.height as int, x, y)
            ==> buffer.colors@[#[trigger] index_of(buffer.pixel_plane.width as int, x, y)] == shade(
            x,
            y,
        )
}

/// Where sampling is free of chance, supersampling changes nothing: a pixel
/// gets the color of its one possible sample, whatever the amount.
pub proof fn lemma_supersampled_without_chance<
    E: Fn(usize, usize) -> u32,
    C: Fn(u32, u32) -> TrueColor,
>(
    escape_time: E,
    coloring: C,
    max_iterations: u32,
    shade: spec_fn(int, int) -> TrueColor,
    amount: int,
    x: usize,
    y: usize,
    color: TrueColor,
)
    requires
        amount >= 1,
        samples_as(escape_time, coloring, max_iterations, shade),
        is_supersampled(escape_time, coloring, max_iterations, amount, x, y, color),
    ensures
        color == shade(x as int, y as int),
{
    let samples = choose|samples: Seq<TrueColor>|
        {
            &&& samples.len() == amount
            &&& forall|k: int|
                0 <= k < amount ==> is_sample(
                    escape_time,
                    coloring,
                    max_iterations,
                    x,
                    y,
                    #[trigger] samples[k],
                )
            &&& color == average_of(samples)
        };
    assert forall|k: int| 0 <= k < samples.len() implies samples[k] == shade(x as int, y as int) by {
        assert(is_sample(escape_time, coloring, max_iterations, x, y, samples[k]));
    }
    lemma_average_of_copies(samples, shade(x as int, y as int));
}

/// Two frames of one plane that show the same picture hold the same colors,
/// and under one mapping the same display pixels.
pub proof fn lemma_same_picture_same_frame(
    a: PixelBuffer,
    b: PixelBuffer,
    shade: spec_fn(int, int) -> TrueColor,
)
    requires
        a.wf(),
        b.wf(),
        a.pixel_plane == b.pixel_plane,
        shows(a, shade),
        shows(b, shade),
    ensures
        a.colors@ == b.colors@,
        a.is_consistent() && b.is_consistent() && a.color_channel_mapping
            == b.color_channel_mapping ==> a.pixels@ == b.pixels@,
{
    let w = a.pixel_plane.width as int;
    let h = a.pixel_plane.height as int;
    assert forall|i: int| 0 <= i < a.colors@.len() implies a.colors@[i] == b.colors@[i] by {
        lemma_point_in_grid(w, h, i);
        lemma_index_of_point(w, i);
        let (x, y) = point_of(w, i);
        assert(a.colors@[index_of(w, x, y)] == shade(x, y));
        assert(b.colors@[index_of(w, x, y)] == shade(x, y));
    }
    assert(a.colors@ =~= b.colors@);
}

/// A render pass over the box that takes in the whole grid does what a render
/// of the whole frame does: the two leave the same frames behind.
pub proof fn lemma_full_box_is_full_render<E: Fn(usize, usize) -> u32, C: Fn(u32, u32) -> TrueColor>(
    before: PixelBuffer,
    after: PixelBuffer,
    amount: int,
    max_iterations: u32,
    escape_time: E,
    coloring: C,
)
    ensures
        is_rendered(
            before,
            after,
            full_box(before.pixel_plane),
            amount,
            max_iterations,
            escape_time,
            coloring,
        ) <==> is_fully_rendered(before, after, amount, max_iterations, escape_time, coloring),
{
    let w = before.pixel_plane.width as int;
    let h = before.pixel_plane.height as int;
    assert forall|x: int, y: int| in_grid(w, h, x, y) implies full_box(before.pixel_plane).holds(
        x,
        y,
    ) by {}
}

/// Where sampling is free of chance, a render of the whole frame leaves the
/// picture that the samples draw.
pub proof fn lemma_full_render_shows_picture<E: Fn(usize, usize) -> u32, C: Fn(u32, u32) -> TrueColor>(
    before: PixelBuffer,
    after: PixelBuffer,
    amount: int,
    max_iterations: u32,
    escape_time: E,
    coloring: C,
    shade: spec_fn(int, int) -> TrueColor,
)
    requires
        amount >= 1,
        samples_as(escape_time, coloring, max_iterations, shade),
        is_fully_rendered(before, after, amount, max_iterations, escape_time, coloring),
    ensures
        shows(after, shade),
{
    let w = before.pixel_plane.width as int;
    let h = before.pixel_plane.height as int;
    assert forall|x: int, y: int| in_grid(w, h, x, y) implies after.colors@[#[trigger] index_of(
        w,
        x,
        y,
    )] == shade(x, y) by {
        lemma_supersampled_without_chance(
            escape_time,
            coloring,
            max_iterations,
            shade,
            amount,
            x as usize,
            y as usize,
            after.colors@[index_of(w, x, y)],
        );
    }
}

/// Where sampling is free of chance, a render pass over the box that takes in
/// the whole grid and a render of the whole frame give identical frames,
/// whatever the two frames held before.
pub proof fn lemma_full_box_render_equals_full_render<
    E: Fn(usize, usize) -> u32,
    C: Fn(u32, u32) -> TrueColor,
>(
    before_box: PixelBuffer,
    after_box: PixelBuffer,
    before_full: PixelBuffer,
    after_full: PixelBuffer,
    amount: int,
    max_iterations: u32,
    escape_time: E,
    coloring: C,
    shade: spec_fn(int, int) -> TrueColor,
)
    requires
        amount >= 1,
        before_box.pixel_plane == before_full.pixel_plane,
        before_box.color_channel_mapping == before_full.color_channel_mapping,
        samples_as(escape_time, coloring, max_iterations, shade),
        is_rendered(
            before_box,
            after_box,
            full_box(before_box.pixel_plane),
            amount,
            max_iterations,
            escape_time,
            coloring,
        ),
        is_fully_rendered(before_full, after_full, amount, max_iterations, escape_time, coloring),
    ensures
        after_box.colors@ == after_full.colors@,
        after_box.pixels@ == after_full.pixels@,
{
    lemma_full_box_is_full_render(
        before_box,
        after_box,
        amount,
        max_iterations,
        escape_time,
        coloring,
    );
    lemma_full_render_shows_picture(
        before_box,
        after_box,
        amount,
        max_iterations,
        escape_time,
        coloring,
        shade,
    );
    lemma_full_render_shows_picture(
        before_full,
        after_full,
        amount,
        max_iterations,
        escape_time,
        coloring,
        shade,
    );
    lemma_same_picture_same_frame(after_box, after_full, shade);
}

/// Whether the picture `moved` is the picture `shade` seen after the view
/// moved by whole pixels, so that the content of the frame moves by `rows`
/// rows and `columns` columns: what `moved` draws at a pixel is what `shade`
/// drew at the pixel that the content comes from.
pub open spec fn is_moved_picture(
    shade: spec_fn(int, int) -> TrueColor,
    moved: spec_fn(int, int) -> TrueColor,
    width: int,
    height: int,
    rows: int,
    columns: int,
) -> bool {
    forall|x: int, y: int|
        in_grid(width, height, x, y) && in_grid(width, height, x - columns, y - rows)
            ==> #[trigger] moved(x, y) == shade(x - columns, y - rows)
}

/// Where sampling is free of chance, a pan leaves the picture of the view
/// after the move: a frame that showed the picture before the move shows,
/// once its content was moved and the exposed strip rendered, what the
/// samples of the new view draw.
pub proof fn lemma_pan_shows_moved_picture<E: Fn(usize, usize) -> u32, C: Fn(u32, u32) -> TrueColor>(
    before: PixelBuffer,
    after: PixelBuffer,
    rows: int,
    columns: int,
    amount: int,
    max_iterations: u32,
    escape_time: E,
    coloring: C,
    shade: spec_fn(int, int) -> TrueColor,
    moved: spec_fn(int, int) -> TrueColor,
)
    requires
        amount >= 1,
        before.wf(),
        shows(before, shade),
        is_moved_picture(
            shade,
            moved,
            before.pixel_plane.width as int,
            before.pixel_plane.height as int,
            rows,
            columns,
        ),
        samples_as(escape_time, coloring, max_iterations, moved),
        is_panned(before, after, rows, columns, amount, max_iterations, escape_time, coloring),
    ensures
        shows(after, moved),
{
    let w = before.pixel_plane.width as int;
    let h = before.pixel_plane.height as int;
    assert forall|x: int, y: int| in_grid(w, h, x, y) implies after.colors@[#[trigger] index_of(
        w,
        x,
        y,
    )] == moved(x, y) by {
        if is_exposed(w, h, rows, columns, x, y) {
            lemma_supersampled_without_chance(
                escape_time,
                coloring,
                max_iterations,
                moved,
                amount,
                x as usize,
                y as usize,
                after.colors@[index_of(w, x, y)],
            );
        } else {
            assert(before.colors@[index_of(w, x - columns, y - rows)] == shade(
                x - columns,
                y - rows,
            ));
            assert(moved(x, y) == shade(x - columns, y - rows));
        }
    }
}

/// Where sampling is free of chance, a pan gives the frame that a render of
/// the whole frame gives for the view after the move, color by color and
/// pixel by pixel.
pub proof fn lemma_pan_equals_full_render<E: Fn(usize, usize) -> u32, C: Fn(u32, u32) -> TrueColor>(
    before: PixelBuffer,
    panned: PixelBuffer,
    rendered: PixelBuffer,
    rows: int,
    columns: int,
    amount: int,
    max_iterations: u32,
    escape_time: E,
    coloring: C,
    shade: spec_fn(int, int) -> TrueColor,
    moved: spec_fn(int, int) -> TrueColor,
)
    requires
        amount >= 1,
        before.wf(),
        shows(before, shade),
        is_moved_picture(
            shade,
            moved,
            before.pixel_plane.width as int,
            before.pixel_plane.height as int,
            rows,
            columns,
        ),
        samples_as(escape_time, coloring, max_iterations, moved),
        is_panned(before, panned, rows, columns, amount, max_iterations, escape_time, coloring),
        is_fully_rendered(before, rendered, amount, max_iterations, escape_time, coloring),
    ensures
        panned.colors@ == rendered.colors@,
        panned.pixels@ == rendered.pixels@,
{
    lemma_pan_shows_moved_picture(
        before,
        panned,
        rows,
        columns,
        amount,
        max_iterations,
        escape_time,
        coloring,
        shade,
        moved,
    );
    lemma_full_render_shows_picture(
        before,
        rendered,
        amount,
        max_iterations,
        escape_time,
        coloring,
        moved,
    );
    lemma_same_picture_same_frame(panned, rendered, moved);
}

/// Where sampling is free of chance, a move to a new center in two pans
/// leaves the picture of the view around the new center, as long as the
/// samples of the first pan draw the picture after the move sideways and
/// those of the second the picture after both moves.
pub proof fn lemma_recenter_shows_moved_picture<
    B: Fn(usize, usize) -> u32,
    E: Fn(usize, usize) -> u32,
    C: Fn(u32, u32) -> TrueColor,
>(
    before: PixelBuffer,
    after: PixelBuffer,
    rows: int,
    columns: int,
    amount: int,
    max_iterations: u32,
    between: B,
    escape_time: E,
    coloring: C,
    shade: spec_fn(int, int) -> TrueColor,
    sideways: spec_fn(int, int) -> TrueColor,
    moved: spec_fn(int, int) -> TrueColor,
)
    requires
        amount >= 1,
        before.wf(),
        shows(before, shade),
        is_moved_picture(
            shade,
            sideways,
            before.pixel_plane.width as int,
            before.pixel_plane.height as int,
            0,
            columns,
        ),
        is_moved_picture(
            sideways,
            moved,
            before.pixel_plane.width as int,
            before.pixel_plane.height as int,
            rows,
            0,
        ),
        samples_as(between, coloring, max_iterations, sideways),
        samples_as(escape_time, coloring, max_iterations, moved),
        is_recentered(
            before,
            after,
            rows,
            columns,
            amount,
            max_iterations,
            between,
            escape_time,
            coloring,
        ),
    ensures
        shows(after, moved),
{
    let halfway = choose|halfway: PixelBuffer|
        {
            &&& #[trigger] is_panned(
                before,
                halfway,
                0,
                columns,
                amount,
                max_iterations,
                between,
                coloring,
            )
            &&& is_panned(
                halfway,
                after,
                rows,
                0,
                amount,
                max_iterations,
                escape_time,
                coloring,
            )
        };
    lemma_pan_shows_moved_picture(
        before,
        halfway,
        0,
        columns,
        amount,
        max_iterations,
        between,
        coloring,
        shade,
        sideways,
    );
    lemma_pan_shows_moved_picture(
        halfway,
        after,
        rows,
        0,
        amount,
        max_iterations,
        escape_time,
        coloring,
        sideways,
        moved,
    );
}

} // verus!
