//! Rows of a frame: taking a copy of one, and writing rendered rows back.

use crate::coloring::TrueColor;
use crate::grid::{index_of, lemma_index_of_point, lemma_point_of_index, point_of};
use crate::pixel_buffer::PixelBuffer;
use vstd::prelude::*;

verus! {

/// A copy of the row `row` of a frame `width` colors wide.
pub fn copy_row(colors: &Vec<TrueColor>, width: usize, row: usize) -> (chunk: Vec<TrueColor>)
    requires
        row * width + width <= colors@.len(),
    ensures
        chunk@ == colors@.subrange(row * width, row * width + width),
{
    proof {
        assert(row * width >= 0) by (nonlinear_arith)
            requires
                row >= 0,
                width >= 0,
        ;
    }
    let total: usize = colors.len();
    let start: usize = row * width;
    let mut chunk: Vec<TrueColor> = Vec::new();
    let mut x: usize = 0;
    while x < width
        invariant
            x <= width,
            start + width <= total,
            total == colors@.len(),
            chunk@ =~= colors@.subrange(start as int, start + x),
        decreases width - x,
    {
        chunk.push(colors[start + x]);
        x = x + 1;
    }
    chunk
}

/// The colors of a frame after the row `row` was replaced by `chunk`.
pub open spec fn with_row(colors: Seq<TrueColor>, width: int, row: int, chunk: Seq<TrueColor>) -> Seq<
    TrueColor,
> {
    Seq::new(
        colors.len(),
        |i: int|
            if row * width <= i < row * width + chunk.len() {
                chunk[i - row * width]
            } else {
                colors[i]
            },
    )
}

/// The colors of a frame after the rows in `thread_chunks`, each with its row
/// index, were written back one after the other.
pub open spec fn merged(
    colors: Seq<TrueColor>,
    width: int,
    thread_chunks: Seq<(usize, Vec<TrueColor>)>,
) -> Seq<TrueColor>
    decreases thread_chunks.len(),
{
    if thread_chunks.len() == 0 {
        colors
    } else {
        with_row(
            merged(colors, width, thread_chunks.drop_last()),
            width,
            thread_chunks.last().0 as int,
            thread_chunks.last().1@,
        )
    }
}

/// Whether every row in `thread_chunks` lies inside a frame of `len` colors.
pub open spec fn chunks_fit(thread_chunks: Seq<(usize, Vec<TrueColor>)>, width: int, len: int) -> bool {
    forall|k: int|
        0 <= k < thread_chunks.len() ==> (#[trigger] thread_chunks[k]).0 * width
            + thread_chunks[k].1@.len() <= len
}

/// Writes the rows that the workers computed back into the colors of `p`, each
/// at the offset of its row. The display pixels are left as they are.
pub fn merge_chunks(p: &mut PixelBuffer, thread_chunks: &Vec<(usize, Vec<TrueColor>)>)
    requires
        chunks_fit(thread_chunks@, old(p).pixel_plane.width as int, old(p).colors@.len() as int),
    ensures
        final(p).colors@ == merged(old(p).colors@, old(p).pixel_plane.width as int, thread_chunks@),
        final(p).pixels == old(p).pixels,
        final(p).pixel_plane == old(p).pixel_plane,
        final(p).color_channel_mapping == old(p).color_channel_mapping,
{
    let ghost before = p.colors@;
    let width: usize = p.pixel_plane.width;
    let mut k: usize = 0;
    while k < thread_chunks.len()
        invariant
            k <= thread_chunks.len(),
            chunks_fit(thread_chunks@, width as int, before.len() as int),
            p.colors@ == merged(before, width as int, thread_chunks@.take(k as int)),
            p.colors@.len() == before.len(),
            p.pixels == old(p).pixels,
            p.pixel_plane == old(p).pixel_plane,
            p.color_channel_mapping == old(p).color_channel_mapping,
        decreases thread_chunks.len() - k,
    {
        let i: usize = thread_chunks[k].0;
        let ghost start = p.colors@;
        let ghost chunk = thread_chunks@[k as int].1@;
        let chunk_len: usize = thread_chunks[k].1.len();
        let total: usize = p.colors.len();
        proof {
            assert(i * width >= 0) by (nonlinear_arith)
                requires
                    i >= 0,
                    width >= 0,
            ;
        }
        let mut index: usize = i * width;
        let mut j: usize = 0;
        while j < chunk_len
            invariant
                j <= chunk_len,
                k < thread_chunks.len(),
                chunk == thread_chunks@[k as int].1@,
                chunk_len == chunk.len(),
                index == i * width + j,
                i * width + chunk_len <= total,
                total == start.len(),
                p.colors@ =~= with_row(start, width as int, i as int, chunk.take(j as int)),
                p.pixels == old(p).pixels,
                p.pixel_plane == old(p).pixel_plane,
                p.color_channel_mapping == old(p).color_channel_mapping,
            decreases chunk_len - j,
        {
            let color = thread_chunks[k].1[j];
            p.colors.set(index, color);
            index = index + 1;
            j = j + 1;
        }
        proof {
            assert(chunk.take(chunk_len as int) =~= chunk);
            assert(thread_chunks@.take(k + 1).drop_last() =~= thread_chunks@.take(k as int));
        }
        k = k + 1;
    }
    proof {
        assert(thread_chunks@.take(k as int) =~= thread_chunks@);
    }
}

/// Whether no two rows in `thread_chunks` have the same row index.
pub open spec fn has_distinct_rows(thread_chunks: Seq<(usize, Vec<TrueColor>)>) -> bool {
    forall|a: int, b: int|
        0 <= a < b < thread_chunks.len() ==> (#[trigger] thread_chunks[a]).0 != (
        #[trigger] thread_chunks[b]).0
}

/// Whether every row in `thread_chunks` is `width` colors long.
pub open spec fn has_full_rows(thread_chunks: Seq<(usize, Vec<TrueColor>)>, width: int) -> bool {
    forall|k: int| 0 <= k < thread_chunks.len() ==> (#[trigger] thread_chunks[k]).1@.len() == width
}

/// Merging keeps the number of colors.
pub proof fn lemma_merged_len(
    colors: Seq<TrueColor>,
    width: int,
    thread_chunks: Seq<(usize, Vec<TrueColor>)>,
)
    ensures
        merged(colors, width, thread_chunks).len() == colors.len(),
    decreases thread_chunks.len(),
{
    if thread_chunks.len() > 0 {
        lemma_merged_len(colors, width, thread_chunks.drop_last());
    }
}

/// After a merge of full rows with distinct row indices, every cell of a
/// merged row holds what that row brought.
pub proof fn lemma_merged_cell(
    colors: Seq<TrueColor>,
    width: int,
    thread_chunks: Seq<(usize, Vec<TrueColor>)>,
    k: int,
    x: int,
)
    requires
        has_distinct_rows(thread_chunks),
        has_full_rows(thread_chunks, width),
        chunks_fit(thread_chunks, width, colors.len() as int),
        0 <= k < thread_chunks.len(),
        0 <= x < width,
    ensures
        0 <= index_of(width, x, thread_chunks[k].0 as int) < colors.len(),
        merged(colors, width, thread_chunks)[index_of(width, x, thread_chunks[k].0 as int)]
            == thread_chunks[k].1@[x],
    decreases thread_chunks.len(),
{
    let last = thread_chunks.len() - 1;
    let rest = thread_chunks.drop_last();
    let row = thread_chunks[k].0 as int;
    let last_row = thread_chunks[last].0 as int;
    let i = index_of(width, x, row);
    lemma_merged_len(colors, width, rest);
    assert(thread_chunks[k].0 * width + thread_chunks[k].1@.len() <= colors.len());
    assert(0 <= row * width) by (nonlinear_arith)
        requires
            0 <= row,
            0 < width,
    ;
    if k < last {
        assert(rest[k] == thread_chunks[k]);
        assert(has_distinct_rows(rest)) by {
            assert forall|a: int, b: int| 0 <= a < b < rest.len() implies (#[trigger] rest[a]).0 != (
            #[trigger] rest[b]).0 by {
                assert(rest[a] == thread_chunks[a]);
                assert(rest[b] == thread_chunks[b]);
            }
        }
        assert(has_full_rows(rest, width)) by {
            assert forall|m: int| 0 <= m < rest.len() implies (#[trigger] rest[m]).1@.len()
                == width by {
                assert(rest[m] == thread_chunks[m]);
            }
        }
        assert(chunks_fit(rest, width, colors.len() as int)) by {
            assert forall|m: int| 0 <= m < rest.len() implies (#[trigger] rest[m]).0 * width
                + rest[m].1@.len() <= colors.len() by {
                assert(rest[m] == thread_chunks[m]);
            }
        }
        lemma_merged_cell(colors, width, rest, k, x);
        assert(thread_chunks[k].0 != thread_chunks[last].0);
        if last_row * width <= i < last_row * width + width {
            lemma_point_of_index(width, x, row);
            lemma_point_of_index(width, i - last_row * width, last_row);
            assert(index_of(width, i - last_row * width, last_row) == i);
        }
    }
}

/// After a merge of full rows, every cell of a row that none of them names
/// holds what it held.
pub proof fn lemma_merged_elsewhere(
    colors: Seq<TrueColor>,
    width: int,
    thread_chunks: Seq<(usize, Vec<TrueColor>)>,
    x: int,
    y: int,
)
    requires
        has_full_rows(thread_chunks, width),
        0 <= x < width,
        0 <= index_of(width, x, y) < colors.len(),
        forall|k: int| 0 <= k < thread_chunks.len() ==> (#[trigger] thread_chunks[k]).0 != y,
    ensures
        merged(colors, width, thread_chunks)[index_of(width, x, y)] == colors[index_of(width, x, y)],
    decreases thread_chunks.len(),
{
    if thread_chunks.len() > 0 {
        let last = thread_chunks.len() - 1;
        let rest = thread_chunks.drop_last();
        let last_row = thread_chunks[last].0 as int;
        let i = index_of(width, x, y);
        lemma_merged_len(colors, width, rest);
        assert(has_full_rows(rest, width)) by {
            assert forall|m: int| 0 <= m < rest.len() implies (#[trigger] rest[m]).1@.len()
                == width by {
                assert(rest[m] == thread_chunks[m]);
            }
        }
        assert forall|m: int| 0 <= m < rest.len() implies (#[trigger] rest[m]).0 != y by {
            assert(rest[m] == thread_chunks[m]);
        }
        lemma_merged_elsewhere(colors, width, rest, x, y);
        assert(thread_chunks[last].0 != y);
        if last_row * width <= i < last_row * width + width {
            lemma_point_of_index(width, x, y);
            lemma_point_of_index(width, i - last_row * width, last_row);
            assert(index_of(width, i - last_row * width, last_row) == i);
        }
    }
}

/// Whether `a` and `b` hold the same rows, in whatever order.
pub open spec fn has_same_chunks(
    a: Seq<(usize, Vec<TrueColor>)>,
    b: Seq<(usize, Vec<TrueColor>)>,
) -> bool {
    &&& forall|k: int|
        0 <= k < a.len() ==> exists|m: int|
            0 <= m < b.len() && (#[trigger] b[m]).0 == (#[trigger] a[k]).0 && b[m].1@ == a[k].1@
    &&& forall|m: int|
        0 <= m < b.len() ==> exists|k: int|
            0 <= k < a.len() && (#[trigger] a[k]).0 == (#[trigger] b[m]).0 && a[k].1@ == b[m].1@
}

/// The merged frame does not depend on which worker rendered which row, nor
/// on the order in which the rows come back: two lists of full rows with
/// distinct row indices that hold the same rows merge into the same colors.
pub proof fn lemma_merge_ignores_order(
    colors: Seq<TrueColor>,
    width: int,
    a: Seq<(usize, Vec<TrueColor>)>,
    b: Seq<(usize, Vec<TrueColor>)>,
)
    requires
        width > 0,
        has_distinct_rows(a),
        has_distinct_rows(b),
        has_full_rows(a, width),
        has_full_rows(b, width),
        chunks_fit(a, width, colors.len() as int),
        chunks_fit(b, width, colors.len() as int),
        has_same_chunks(a, b),
    ensures
        merged(colors, width, a) == merged(colors, width, b),
{
    lemma_merged_len(colors, width, a);
    lemma_merged_len(colors, width, b);
    assert forall|i: int| 0 <= i < colors.len() implies merged(colors, width, a)[i] == merged(
        colors,
        width,
        b,
    )[i] by {
        lemma_index_of_point(width, i);
        let (x, y) = point_of(width, i);
        if exists|k: int| 0 <= k < a.len() && (#[trigger] a[k]).0 == y {
            let k = choose|k: int| 0 <= k < a.len() && (#[trigger] a[k]).0 == y;
            let m = choose|m: int|
                0 <= m < b.len() && (#[trigger] b[m]).0 == a[k].0 && b[m].1@ == a[k].1@;
            lemma_merged_cell(colors, width, a, k, x);
            lemma_merged_cell(colors, width, b, m, x);
        } else {
            assert forall|m: int| 0 <= m < b.len() implies (#[trigger] b[m]).0 != y by {
                if b[m].0 == y {
                    let k = choose|k: int|
                        0 <= k < a.len() && (#[trigger] a[k]).0 == b[m].0 && a[k].1@ == b[m].1@;
                    assert(a[k].0 == y);
                }
            }
            lemma_merged_elsewhere(colors, width, a, x, y);
            lemma_merged_elsewhere(colors, width, b, x, y);
        }
    }
    assert(merged(colors, width, a) =~= merged(colors, width, b));
}

} // verus!
