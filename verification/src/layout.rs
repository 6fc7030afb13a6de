//! The layout engine: rows of cells, and whole-track images.
//!
//! Pure functions of a track's cell bitmaps, a row capacity and a
//! spacing constant. Cells are grouped into consecutive runs of at
//! most `notes_per_row`; each run is concatenated horizontally with a
//! spacing-wide gap before every cell, so a row is `sum of widths +
//! cells * spacing` wide and as tall as its tallest cell; the rows are
//! then concatenated vertically with a gap before every row.

use vstd::prelude::*;
use vstd::math::max;
use crate::bitmap::{blank, overlay_spec, Bitmap, ImageView, Pixel, StampMode};

verus! {

/// The background of row and track canvases.
pub open spec fn layout_bg() -> Pixel {
    Pixel { r: 0, g: 0, b: 0, a: 255 }
}

/// Total width of a list of cells, without gaps.
pub open spec fn sum_widths(cells: Seq<ImageView>) -> nat
    decreases cells.len(),
{
    if cells.len() == 0 {
        0
    } else {
        sum_widths(cells.drop_last()) + cells.last().width
    }
}

/// Total height of a list of cells.
pub open spec fn sum_heights(cells: Seq<ImageView>) -> nat
    decreases cells.len(),
{
    if cells.len() == 0 {
        0
    } else {
        sum_heights(cells.drop_last()) + cells.last().height
    }
}

/// Height of the tallest cell in a list.
pub open spec fn max_heights(cells: Seq<ImageView>) -> nat
    decreases cells.len(),
{
    if cells.len() == 0 {
        0
    } else {
        max(max_heights(cells.drop_last()) as int, cells.last().height as int) as nat
    }
}

/// Width of the widest cell in a list.
pub open spec fn max_widths(cells: Seq<ImageView>) -> nat
    decreases cells.len(),
{
    if cells.len() == 0 {
        0
    } else {
        max(max_widths(cells.drop_last()) as int, cells.last().width as int) as nat
    }
}

/// The width a row of these cells takes: their widths plus one gap
/// before each cell.
pub open spec fn row_span(cells: Seq<ImageView>, spacing: nat) -> nat {
    sum_widths(cells) + cells.len() * spacing
}

/// The height a column of these cells takes: their heights plus one
/// gap before each cell.
pub open spec fn col_span(cells: Seq<ImageView>, spacing: nat) -> nat {
    sum_heights(cells) + cells.len() * spacing
}

/// A row canvas grown rightward by one cell, with a gap before it.
pub open spec fn hcat(prev: ImageView, cell: ImageView, spacing: nat) -> ImageView {
    let w = prev.width + spacing + cell.width;
    let h = max(prev.height as int, cell.height as int) as nat;
    let v = blank(w, h, layout_bg());
    let v = overlay_spec(v, prev, 0, 0, StampMode::Full);
    overlay_spec(v, cell, (prev.width + spacing) as int, 0, StampMode::Full)
}

/// The row image of a list of cells: the cells left to right, each
/// with a spacing-wide gap before it.
pub open spec fn row_spec(cells: Seq<ImageView>, spacing: nat) -> ImageView
    decreases cells.len(),
{
    if cells.len() == 0 {
        blank(0, 0, layout_bg())
    } else {
        hcat(row_spec(cells.drop_last(), spacing), cells.last(), spacing)
    }
}

/// A track canvas grown downward by one row, with a gap before it.
pub open spec fn vcat(prev: ImageView, row: ImageView, spacing: nat) -> ImageView {
    let w = max(prev.width as int, row.width as int) as nat;
    let h = prev.height + spacing + row.height;
    let v = blank(w, h, layout_bg());
    let v = overlay_spec(v, prev, 0, 0, StampMode::Full);
    overlay_spec(v, row, 0, (prev.height + spacing) as int, StampMode::Full)
}

/// The track image of a list of rows: the rows top to bottom, each
/// with a spacing-wide gap before it.
pub open spec fn track_spec(rows: Seq<ImageView>, spacing: nat) -> ImageView
    decreases rows.len(),
{
    if rows.len() == 0 {
        blank(0, 0, layout_bg())
    } else {
        vcat(track_spec(rows.drop_last(), spacing), rows.last(), spacing)
    }
}

/// A row image is exactly as wide as its cells and their gaps, and as
/// tall as its tallest cell.
pub proof fn lemma_row_spec_dims(cells: Seq<ImageView>, spacing: nat)
    ensures
        row_spec(cells, spacing).width == row_span(cells, spacing),
        row_spec(cells, spacing).height == max_heights(cells),
        row_spec(cells, spacing).wf(),
    decreases cells.len(),
{
    if cells.len() > 0 {
        lemma_row_spec_dims(cells.drop_last(), spacing);
        assert((cells.len() - 1) * spacing + spacing == cells.len() * spacing)
            by (nonlinear_arith);
    }
}

/// Appending one cell grows the row width by exactly that cell's
/// width plus the spacing.
pub proof fn lemma_row_append(cells: Seq<ImageView>, cell: ImageView, spacing: nat)
    ensures
        row_spec(cells.push(cell), spacing).width == row_spec(cells, spacing).width + cell.width
            + spacing,
{
    assert(cells.push(cell).drop_last() =~= cells);
    lemma_row_spec_dims(cells, spacing);
    lemma_row_spec_dims(cells.push(cell), spacing);
    assert((cells.len() + 1) * spacing == cells.len() * spacing + spacing) by (nonlinear_arith);
}

/// A track image is exactly as tall as its rows and their gaps, and
/// as wide as its widest row.
pub proof fn lemma_track_spec_dims(rows: Seq<ImageView>, spacing: nat)
    ensures
        track_spec(rows, spacing).height == sum_heights(rows) + rows.len() * spacing,
        track_spec(rows, spacing).width == max_widths(rows),
        track_spec(rows, spacing).wf(),
    decreases rows.len(),
{
    if rows.len() > 0 {
        lemma_track_spec_dims(rows.drop_last(), spacing);
        assert((rows.len() - 1) * spacing + spacing == rows.len() * spacing) by (nonlinear_arith);
    }
}

/// The cells cut into consecutive runs of at most `n`, in order.
pub open spec fn chunks_of(cells: Seq<ImageView>, n: int) -> Seq<Seq<ImageView>>
    decreases cells.len(),
{
    if cells.len() == 0 {
        Seq::empty()
    } else if n < 1 || cells.len() <= n {
        seq![cells]
    } else {
        seq![cells.take(n)] + chunks_of(cells.skip(n), n)
    }
}

/// The row images a list of cells is laid out into.
pub open spec fn rows_views(cells: Seq<ImageView>, n: int, spacing: nat) -> Seq<ImageView> {
    chunks_of(cells, n).map_values(|c: Seq<ImageView>| row_spec(c, spacing))
}

/// All layout canvases over these cells stay within the machine's
/// address range.
pub open spec fn layout_fits(cells: Seq<ImageView>, spacing: nat) -> bool {
    &&& row_span(cells, spacing) <= usize::MAX
    &&& col_span(cells, spacing) <= usize::MAX
    &&& row_span(cells, spacing) * col_span(cells, spacing) <= usize::MAX
}

proof fn lemma_sums_concat(a: Seq<ImageView>, b: Seq<ImageView>)
    ensures
        sum_widths(a + b) == sum_widths(a) + sum_widths(b),
        sum_heights(a + b) == sum_heights(a) + sum_heights(b),
        max_heights(a + b) == max(max_heights(a) as int, max_heights(b) as int),
        max_widths(a + b) == max(max_widths(a) as int, max_widths(b) as int),
    decreases b.len(),
{
    if b.len() == 0 {
        assert(a + b =~= a);
    } else {
        assert((a + b).drop_last() =~= a + b.drop_last());
        assert((a + b).last() == b.last());
        lemma_sums_concat(a, b.drop_last());
    }
}

proof fn lemma_spans_concat(a: Seq<ImageView>, b: Seq<ImageView>, spacing: nat)
    ensures
        row_span(a + b, spacing) == row_span(a, spacing) + row_span(b, spacing),
        col_span(a + b, spacing) == col_span(a, spacing) + col_span(b, spacing),
{
    lemma_sums_concat(a, b);
    assert((a.len() + b.len()) * spacing == a.len() * spacing + b.len() * spacing)
        by (nonlinear_arith);
}

proof fn lemma_spans_subrange(cells: Seq<ImageView>, i: int, j: int, spacing: nat)
    requires
        0 <= i <= j <= cells.len(),
    ensures
        row_span(cells.subrange(i, j), spacing) <= row_span(cells, spacing),
        col_span(cells.subrange(i, j), spacing) <= col_span(cells, spacing),
{
    assert(cells =~= cells.take(j) + cells.skip(j));
    assert(cells.take(j) =~= cells.take(i) + cells.subrange(i, j));
    lemma_spans_concat(cells.take(j), cells.skip(j), spacing);
    lemma_spans_concat(cells.take(i), cells.subrange(i, j), spacing);
}

proof fn lemma_max_le_sum(cells: Seq<ImageView>)
    ensures
        max_heights(cells) <= sum_heights(cells),
    decreases cells.len(),
{
    if cells.len() > 0 {
        lemma_max_le_sum(cells.drop_last());
    }
}

proof fn lemma_mul_le(a: int, b: int, c: int, d: int)
    requires
        0 <= a <= b,
        0 <= c <= d,
    ensures
        a * c <= b * d,
{
    assert(a * c <= b * d) by (nonlinear_arith)
        requires
            0 <= a <= b,
            0 <= c <= d,
    ;
}

/// A row canvas over a chunk of the cells stays within bounds.
proof fn lemma_chunk_fits(cells: Seq<ImageView>, i: int, j: int, spacing: nat)
    requires
        0 <= i <= j <= cells.len(),
        layout_fits(cells, spacing),
    ensures
        row_span(cells.subrange(i, j), spacing) <= usize::MAX,
        row_span(cells.subrange(i, j), spacing) * max_heights(cells.subrange(i, j))
            <= usize::MAX,
{
    let chunk = cells.subrange(i, j);
    lemma_spans_subrange(cells, i, j, spacing);
    lemma_max_le_sum(chunk);
    lemma_mul_le(
        row_span(chunk, spacing) as int,
        row_span(cells, spacing) as int,
        max_heights(chunk) as int,
        col_span(cells, spacing) as int,
    );
}

fn hcat_exec(prev: Bitmap, cell: &Bitmap, spacing: usize) -> (r: Bitmap)
    requires
        prev.wf(),
        cell.wf(),
        prev@.width + spacing + cell@.width <= usize::MAX,
        (prev@.width + spacing + cell@.width) * max(prev@.height as int, cell@.height as int)
            <= usize::MAX,
    ensures
        r.wf(),
        r@ == hcat(prev@, cell@, spacing as nat),
{
    let w = prev.width() + spacing + cell.width();
    let h = if prev.height() >= cell.height() {
        prev.height()
    } else {
        cell.height()
    };
    let mut canvas = Bitmap::new(w, h, Pixel { r: 0, g: 0, b: 0, a: 255 });
    canvas.overlay(&prev, 0, 0, StampMode::Full);
    canvas.overlay(cell, prev.width() + spacing, 0, StampMode::Full);
    canvas
}

fn vcat_exec(prev: Bitmap, row: &Bitmap, spacing: usize) -> (r: Bitmap)
    requires
        prev.wf(),
        row.wf(),
        prev@.height + spacing + row@.height <= usize::MAX,
        (prev@.height + spacing + row@.height) * max(prev@.width as int, row@.width as int)
            <= usize::MAX,
    ensures
        r.wf(),
        r@ == vcat(prev@, row@, spacing as nat),
{
    let w = if prev.width() >= row.width() {
        prev.width()
    } else {
        row.width()
    };
    let h = prev.height() + spacing + row.height();
    proof {
        assert((w as int) * (h as int) == (h as int) * (w as int)) by (nonlinear_arith);
    }
    let mut canvas = Bitmap::new(w, h, Pixel { r: 0, g: 0, b: 0, a: 255 });
    canvas.overlay(&prev, 0, 0, StampMode::Full);
    canvas.overlay(row, 0, prev.height() + spacing, StampMode::Full);
    canvas
}

/// The views of a list of cell bitmaps.
pub open spec fn views_of(cells: Seq<Bitmap>) -> Seq<ImageView> {
    cells.map_values(|b: Bitmap| b@)
}

/// Every cell buffer is well formed.
pub open spec fn cells_wf(cells: Seq<Bitmap>) -> bool {
    forall|i: int| 0 <= i < cells.len() ==> (#[trigger] cells[i]).wf()
}

fn build_row(cells: &Vec<Bitmap>, start: usize, end: usize, spacing: usize) -> (r: Bitmap)
    requires
        cells_wf(cells@),
        start <= end <= cells@.len(),
        row_span(views_of(cells@).subrange(start as int, end as int), spacing as nat)
            <= usize::MAX,
        row_span(views_of(cells@).subrange(start as int, end as int), spacing as nat)
            * max_heights(views_of(cells@).subrange(start as int, end as int)) <= usize::MAX,
    ensures
        r.wf(),
        r@ == row_spec(views_of(cells@).subrange(start as int, end as int), spacing as nat),
{
    let ghost chunk = views_of(cells@).subrange(start as int, end as int);
    let mut acc = Bitmap::new(0, 0, Pixel { r: 0, g: 0, b: 0, a: 255 });
    proof {
        assert(acc@ =~= row_spec(chunk.take(0), spacing as nat));
    }
    let mut j: usize = start;
    while j < end
        invariant
            start <= j <= end,
            end <= cells@.len(),
            cells_wf(cells@),
            chunk == views_of(cells@).subrange(start as int, end as int),
            row_span(chunk, spacing as nat) <= usize::MAX,
            row_span(chunk, spacing as nat) * max_heights(chunk) <= usize::MAX,
            acc.wf(),
            acc@ == row_spec(chunk.take(j - start), spacing as nat),
        decreases end - j,
    {
        let ghost m = j - start;
        proof {
            assert(chunk.take(m + 1).drop_last() =~= chunk.take(m));
            assert(chunk.take(m + 1).last() == chunk[m]);
            assert(chunk[m] == cells@[j as int]@);
            lemma_row_spec_dims(chunk.take(m), spacing as nat);
            lemma_row_spec_dims(chunk.take(m + 1), spacing as nat);
            assert(chunk.take(m + 1) =~= chunk.subrange(0, m + 1));
            lemma_spans_subrange(chunk, 0, m + 1, spacing as nat);
            assert(max_heights(chunk.take(m + 1)) <= max_heights(chunk)) by {
                assert(chunk =~= chunk.take(m + 1) + chunk.skip(m + 1));
                lemma_sums_concat(chunk.take(m + 1), chunk.skip(m + 1));
            }
            lemma_mul_le(
                row_span(chunk.take(m + 1), spacing as nat) as int,
                row_span(chunk, spacing as nat) as int,
                max_heights(chunk.take(m + 1)) as int,
                max_heights(chunk) as int,
            );
            assert((m + 1) * (spacing as nat) == m * (spacing as nat) + spacing)
                by (nonlinear_arith);
        }
        acc = hcat_exec(acc, &cells[j], spacing);
        j = j + 1;
    }
    proof {
        assert(chunk.take(end - start) =~= chunk);
    }
    acc
}

/// Cut the cells into rows of at most `notes_per_row` and render each
/// row: the cells left to right with a spacing-wide gap before each.
pub fn row_images(cells: &Vec<Bitmap>, notes_per_row: usize, spacing: usize) -> (r: Vec<Bitmap>)
    requires
        notes_per_row >= 1,
        cells_wf(cells@),
        layout_fits(views_of(cells@), spacing as nat),
    ensures
        r@.len() == chunks_of(views_of(cells@), notes_per_row as int).len(),
        forall|k: int| 0 <= k < r@.len() ==> (#[trigger] r@[k])@ == rows_views(
            views_of(cells@),
            notes_per_row as int,
            spacing as nat,
        )[k],
        cells_wf(r@),
{
    let ghost vs = views_of(cells@);
    let ghost n = notes_per_row as int;
    let ghost s = spacing as nat;
    let len = cells.len();
    let mut rows: Vec<Bitmap> = Vec::new();
    let mut start: usize = 0;
    proof {
        assert(vs.skip(0) =~= vs);
        assert(views_of(rows@) =~= Seq::<ImageView>::empty());
        assert(rows_views(vs, n, s) =~= views_of(rows@) + rows_views(vs.skip(0), n, s));
    }
    while start < len
        invariant
            notes_per_row >= 1,
            start <= len,
            len == cells@.len(),
            cells_wf(cells@),
            vs == views_of(cells@),
            n == notes_per_row as int,
            s == spacing as nat,
            layout_fits(vs, s),
            cells_wf(rows@),
            rows_views(vs, n, s) =~= views_of(rows@) + rows_views(vs.skip(start as int), n, s),
        decreases len - start,
    {
        let end = if len - start > notes_per_row {
            start + notes_per_row
        } else {
            len
        };
        proof {
            lemma_chunk_fits(vs, start as int, end as int, s);
            let rest = vs.skip(start as int);
            assert(rest.len() == len - start);
            if rest.len() <= n {
                assert(chunks_of(rest, n) =~= seq![rest]);
                assert(rest =~= vs.subrange(start as int, end as int));
            } else {
                assert(chunks_of(rest, n) =~= seq![rest.take(n)] + chunks_of(rest.skip(n), n));
                assert(rest.take(n) =~= vs.subrange(start as int, end as int));
                assert(rest.skip(n) =~= vs.skip(end as int));
            }
            assert(vs.subrange(start as int, end as int) =~= views_of(
                cells@,
            ).subrange(start as int, end as int));
        }
        let row = build_row(cells, start, end, spacing);
        rows.push(row);
        proof {
            let rest = vs.skip(start as int);
            let prev_rows = rows@.drop_last();
            assert(views_of(rows@) =~= views_of(prev_rows).push(row@));
            if rest.len() <= n {
                assert(rows_views(rest, n, s) =~= seq![
                    row_spec(vs.subrange(start as int, end as int), s),
                ]);
                assert(rows_views(vs.skip(end as int), n, s) =~= Seq::empty());
            } else {
                assert(rows_views(rest, n, s) =~= seq![
                    row_spec(vs.subrange(start as int, end as int), s),
                ] + rows_views(vs.skip(end as int), n, s));
            }
            assert(rows_views(vs, n, s) =~= views_of(rows@) + rows_views(
                vs.skip(end as int),
                n,
                s,
            ));
        }
        start = end;
    }
    proof {
        assert(vs.skip(len as int) =~= Seq::<ImageView>::empty());
        assert(rows_views(vs, n, s) =~= views_of(rows@));
        assert forall|k: int| 0 <= k < rows@.len() implies (#[trigger] rows@[k])@ == rows_views(
            vs,
            n,
            s,
        )[k] by {
            assert(views_of(rows@)[k] == rows@[k]@);
        }
    }
    rows
}

/// The rows of a layout together stay within the spans of its cells.
proof fn lemma_rows_bounds(cells: Seq<ImageView>, n: int, s: nat)
    requires
        n >= 1,
    ensures
        sum_heights(rows_views(cells, n, s)) + chunks_of(cells, n).len() * s <= col_span(cells, s),
        max_widths(rows_views(cells, n, s)) <= row_span(cells, s),
    decreases cells.len(),
{
    let rvs = rows_views(cells, n, s);
    assert(sum_heights(Seq::<ImageView>::empty()) == 0);
    assert(max_widths(Seq::<ImageView>::empty()) == 0);
    if cells.len() == 0 {
        assert(rvs =~= Seq::<ImageView>::empty());
    } else if cells.len() <= n {
        assert(chunks_of(cells, n) =~= seq![cells]);
        assert(rvs =~= seq![row_spec(cells, s)]);
        assert(rvs.drop_last() =~= Seq::<ImageView>::empty());
        lemma_row_spec_dims(cells, s);
        lemma_max_le_sum(cells);
        assert(sum_heights(rvs) == sum_heights(rvs.drop_last()) + rvs.last().height);
        assert(max_widths(rvs) == max(max_widths(rvs.drop_last()) as int, rvs.last().width as int));
        assert(1 * s <= cells.len() * s) by (nonlinear_arith)
            requires
                cells.len() >= 1,
        ;
    } else {
        let a = cells.take(n);
        let b = cells.skip(n);
        lemma_rows_bounds(b, n, s);
        assert(cells =~= a + b);
        lemma_spans_concat(a, b, s);
        assert(chunks_of(cells, n) == seq![a] + chunks_of(b, n));
        assert(rvs =~= seq![row_spec(a, s)] + rows_views(b, n, s));
        lemma_sums_concat(seq![row_spec(a, s)], rows_views(b, n, s));
        assert(seq![row_spec(a, s)].drop_last() =~= Seq::<ImageView>::empty());
        assert(sum_heights(seq![row_spec(a, s)]) == sum_heights(
            seq![row_spec(a, s)].drop_last(),
        ) + row_spec(a, s).height);
        assert(max_widths(seq![row_spec(a, s)]) == max(
            max_widths(seq![row_spec(a, s)].drop_last()) as int,
            row_spec(a, s).width as int,
        ));
        lemma_row_spec_dims(a, s);
        lemma_max_le_sum(a);
        assert(1 * s <= a.len() * s) by (nonlinear_arith)
            requires
                a.len() >= 1,
        ;
        assert((1 + chunks_of(b, n).len()) * s == 1 * s + chunks_of(b, n).len() * s)
            by (nonlinear_arith);
    }
}

/// Render the whole track: its rows of at most `notes_per_row` cells,
/// concatenated top to bottom with a spacing-wide gap before each row.
pub fn track_image(cells: &Vec<Bitmap>, notes_per_row: usize, spacing: usize) -> (r: Bitmap)
    requires
        notes_per_row >= 1,
        cells_wf(cells@),
        layout_fits(views_of(cells@), spacing as nat),
    ensures
        r.wf(),
        r@ == track_spec(
            rows_views(views_of(cells@), notes_per_row as int, spacing as nat),
            spacing as nat,
        ),
{
    let ghost vs = views_of(cells@);
    let ghost n = notes_per_row as int;
    let ghost s = spacing as nat;
    let rows = row_images(cells, notes_per_row, spacing);
    let ghost rvs = rows_views(vs, n, s);
    proof {
        assert(views_of(rows@) =~= rvs);
        lemma_rows_bounds(vs, n, s);
    }
    let mut acc = Bitmap::new(0, 0, Pixel { r: 0, g: 0, b: 0, a: 255 });
    proof {
        assert(acc@ =~= track_spec(rvs.take(0), s));
    }
    let mut m: usize = 0;
    while m < rows.len()
        invariant
            m <= rows@.len(),
            s == spacing as nat,
            n == notes_per_row as int,
            vs == views_of(cells@),
            cells_wf(rows@),
            views_of(rows@) =~= rvs,
            rvs == rows_views(vs, n, s),
            rvs.len() == chunks_of(vs, n).len(),
            sum_heights(rvs) + rvs.len() * s <= col_span(vs, s),
            max_widths(rvs) <= row_span(vs, s),
            layout_fits(vs, s),
            acc.wf(),
            acc@ == track_spec(rvs.take(m as int), s),
        decreases rows@.len() - m,
    {
        let ghost mi = m as int;
        proof {
            assert(rvs.take(mi + 1).drop_last() =~= rvs.take(mi));
            assert(rvs.take(mi + 1).last() == rvs[mi]);
            assert(rvs[mi] == rows@[mi]@);
            lemma_track_spec_dims(rvs.take(mi), s);
            lemma_track_spec_dims(rvs.take(mi + 1), s);
            assert(sum_heights(rvs.take(mi + 1)) == sum_heights(rvs.take(mi)) + rvs[mi].height);
            assert(max_widths(rvs.take(mi + 1)) == max(
                max_widths(rvs.take(mi)) as int,
                rvs[mi].width as int,
            ));
            assert(rvs =~= rvs.take(mi + 1) + rvs.skip(mi + 1));
            lemma_sums_concat(rvs.take(mi + 1), rvs.skip(mi + 1));
            assert(sum_heights(rvs.take(mi + 1)) <= sum_heights(rvs));
            assert(max_widths(rvs.take(mi + 1)) <= max_widths(rvs));
            assert((mi + 1) * s == mi * s + s) by (nonlinear_arith);
            assert((mi + 1) * s <= rvs.len() * s) by (nonlinear_arith)
                requires
                    0 <= mi + 1 <= rvs.len(),
            ;
            assert(acc@.height + s + rvs[mi].height == sum_heights(rvs.take(mi + 1)) + (mi + 1)
                * s);
            assert(acc@.height + s + rvs[mi].height <= col_span(vs, s));
            assert(max(acc@.width as int, rvs[mi].width as int) == max_widths(
                rvs.take(mi + 1),
            ) as int);
            lemma_mul_le(
                (acc@.height + s + rvs[mi].height) as int,
                col_span(vs, s) as int,
                max_widths(rvs.take(mi + 1)) as int,
                row_span(vs, s) as int,
            );
            assert(col_span(vs, s) * row_span(vs, s) == row_span(vs, s) * col_span(vs, s))
                by (nonlinear_arith);
        }
        acc = vcat_exec(acc, &rows[m], spacing);
        m = m + 1;
    }
    proof {
        assert(rvs.take(rows@.len() as int) =~= rvs);
    }
    acc
}

} // verus!
