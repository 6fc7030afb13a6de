//! One track and the fingering disambiguation.
//!
//! A track is the ordered list of notes kept from one MIDI track, each
//! with its nonempty candidate-fingering list. `select_fingerings`
//! picks exactly one fingering per position in a single left-to-right
//! pass: a lone candidate is taken as it stands; an ambiguous set is
//! reduced with a pairwise comparator folded left-to-right, scored
//! against the next position's candidates (at the first position) or
//! against the previous choice (elsewhere).

use vstd::prelude::*;
use vstd::math::{max, min};
use crate::atlas::{AtlasView, GlyphAtlas, CHART_HEIGHT, CHART_WIDTH};
use crate::bitmap::{Bitmap, ImageView};
use crate::chart::chart_spec;
use crate::keys::{popcount, KeySet};
use crate::layout::{
    cells_wf, chunks_of, layout_fits, row_span, col_span, rows_views, sum_heights, sum_widths,
    track_spec, views_of,
};
use crate::note::{Fingering, Note, NoteView, fings_of};

verus! {

/// The most keys a fingering shares with any one context fingering.
pub open spec fn inter_score(f: u32, ctx: Seq<u32>) -> int
    decreases ctx.len(),
{
    if ctx.len() <= 1 {
        popcount(f & ctx[0]) as int
    } else {
        max(inter_score(f, ctx.drop_last()), popcount(f & ctx.last()) as int)
    }
}

/// How far a fingering stands from the context fingerings: the largest
/// (`use_max`) or smallest symmetric-difference count.
pub open spec fn diff_score(f: u32, ctx: Seq<u32>, use_max: bool) -> int
    decreases ctx.len(),
{
    if ctx.len() <= 1 {
        popcount(f ^ ctx[0]) as int
    } else if use_max {
        max(diff_score(f, ctx.drop_last(), use_max), popcount(f ^ ctx.last()) as int)
    } else {
        min(diff_score(f, ctx.drop_last(), use_max), popcount(f ^ ctx.last()) as int)
    }
}

/// How well a fingering fits a context: shared keys minus differing keys.
pub open spec fn score(f: u32, ctx: Seq<u32>, use_max: bool) -> int {
    inter_score(f, ctx) - diff_score(f, ctx, use_max)
}

/// The comparator: the later operand wins only with a strictly better
/// score, so every tie keeps the earlier one.
pub open spec fn better(a: u32, b: u32, ctx: Seq<u32>, use_max: bool) -> u32 {
    if score(b, ctx, use_max) > score(a, ctx, use_max) {
        b
    } else {
        a
    }
}

/// The comparator folded over the first `j` candidates, seeded with the
/// first candidate.
pub open spec fn fold_choice(cands: Seq<u32>, ctx: Seq<u32>, use_max: bool, j: int) -> u32
    decreases j,
{
    if j <= 0 {
        cands[0]
    } else {
        better(fold_choice(cands, ctx, use_max, j - 1), cands[j - 1], ctx, use_max)
    }
}

/// The fingering chosen at position `i` of a track.
pub open spec fn resolve_at(track: Seq<NoteView>, i: int) -> u32
    decreases i,
{
    let cands = track[i].fings;
    if cands.len() == 1 {
        cands[0]
    } else if i <= 0 {
        fold_choice(cands, track[1].fings, true, cands.len() as int)
    } else {
        fold_choice(cands, seq![resolve_at(track, i - 1)], false, cands.len() as int)
    }
}

/// Every position has at least one candidate.
pub open spec fn track_wf(track: Seq<NoteView>) -> bool {
    forall|i: int| 0 <= i < track.len() ==> #[trigger] track[i].fings.len() >= 1
}

/// The track can be resolved: candidate sets are nonempty, and an
/// ambiguous first position has a next position to look ahead to.
pub open spec fn resolvable(track: Seq<NoteView>) -> bool {
    track_wf(track) && (track.len() == 1 ==> track[0].fings.len() == 1)
}

/// If every position has exactly one candidate, the resolution is that
/// unique sequence, whatever the context logic would say.
pub proof fn lemma_unique_candidates(track: Seq<NoteView>)
    requires
        forall|i: int| 0 <= i < track.len() ==> #[trigger] track[i].fings.len() == 1,
    ensures
        forall|i: int| 0 <= i < track.len() ==> #[trigger] resolve_at(track, i) == track[i].fings[0],
{
}

/// The left-fold comparator is stable: any tie, and in particular
/// comparing a fingering to itself, keeps the earlier operand.
pub proof fn lemma_comparator_stable(a: u32, b: u32, ctx: Seq<u32>, use_max: bool)
    requires
        score(b, ctx, use_max) <= score(a, ctx, use_max),
    ensures
        better(a, b, ctx, use_max) == a,
        better(a, a, ctx, use_max) == a,
{
}

fn score_against(f: Fingering, ctx: &Vec<Fingering>, use_max: bool) -> (s: i32)
    requires
        ctx@.len() >= 1,
    ensures
        s == score(f@, fings_of(ctx@), use_max),
{
    let ghost cs = fings_of(ctx@);
    let mut inter: u32 = f.keys.intersection(&ctx[0].keys).len();
    let mut diff: u32 = f.keys.symmetrical_difference(&ctx[0].keys).len();
    proof {
        crate::keys::lemma_popcount_le(f@ & cs[0]);
        crate::keys::lemma_popcount_le(f@ ^ cs[0]);
        assert(cs.take(1).len() == 1);
        assert(cs.take(1)[0] == cs[0]);
    }
    let mut j: usize = 1;
    while j < ctx.len()
        invariant
            1 <= j <= ctx@.len(),
            cs == fings_of(ctx@),
            cs.len() == ctx@.len(),
            inter <= 32,
            diff <= 32,
            inter == inter_score(f@, cs.take(j as int)),
            diff == diff_score(f@, cs.take(j as int), use_max),
        decreases ctx@.len() - j,
    {
        let ci = f.keys.intersection(&ctx[j].keys).len();
        let cd = f.keys.symmetrical_difference(&ctx[j].keys).len();
        proof {
            crate::keys::lemma_popcount_le(f@ & cs[j as int]);
            crate::keys::lemma_popcount_le(f@ ^ cs[j as int]);
            assert(cs.take(j + 1).drop_last() =~= cs.take(j as int));
            assert(cs.take(j + 1).last() == cs[j as int]);
            assert(cs.take(j + 1).len() == j + 1 >= 2);
        }
        if ci > inter {
            inter = ci;
        }
        if use_max {
            if cd > diff {
                diff = cd;
            }
        } else {
            if cd < diff {
                diff = cd;
            }
        }
        j = j + 1;
    }
    proof {
        assert(cs.take(ctx@.len() as int) =~= cs);
    }
    (inter as i32) - (diff as i32)
}

/// One step of the left fold: the later candidate replaces the earlier
/// one only when it scores strictly better against the context.
fn compare_notes(a: Fingering, b: Fingering, ctx: &Vec<Fingering>, use_max: bool) -> (r: Fingering)
    requires
        ctx@.len() >= 1,
    ensures
        r@ == better(a@, b@, fings_of(ctx@), use_max),
{
    let sa = score_against(a, ctx, use_max);
    let sb = score_against(b, ctx, use_max);
    if sb > sa {
        b
    } else {
        a
    }
}

fn fold_candidates(cands: &Vec<Fingering>, ctx: &Vec<Fingering>, use_max: bool) -> (r: Fingering)
    requires
        cands@.len() >= 1,
        ctx@.len() >= 1,
    ensures
        r@ == fold_choice(fings_of(cands@), fings_of(ctx@), use_max, cands@.len() as int),
{
    let mut acc: Fingering = cands[0];
    let mut j: usize = 0;
    while j < cands.len()
        invariant
            j <= cands@.len(),
            cands@.len() >= 1,
            ctx@.len() >= 1,
            acc@ == fold_choice(fings_of(cands@), fings_of(ctx@), use_max, j as int),
        decreases cands@.len() - j,
    {
        acc = compare_notes(acc, cands[j], ctx, use_max);
        j = j + 1;
    }
    acc
}

/// One track: the ordered notes kept from one source track.
#[derive(Debug)]
pub struct Track {
    pub notes: Vec<Note>,
}

impl View for Track {
    type V = Seq<NoteView>;

    open spec fn view(&self) -> Seq<NoteView> {
        self.notes@.map_values(|n: Note| n@)
    }
}

impl Track {
    /// A track over the given notes.
    pub fn new(notes: Vec<Note>) -> (r: Track)
        ensures
            r@ == notes@.map_values(|n: Note| n@),
    {
        Track { notes }
    }

    /// The notes of the track.
    pub fn notes(&self) -> (r: &Vec<Note>)
        ensures
            r@.map_values(|n: Note| n@) == self@,
    {
        &self.notes
    }

    /// Whether `select_fingerings` accepts this track.
    pub fn is_resolvable(&self) -> (r: bool)
        ensures
            r == resolvable(self@),
    {
        let n = self.notes.len();
        if n == 1 && self.notes[0].fingerings.len() != 1 {
            assert(self@[0].fings.len() != 1);
            return false;
        }
        let mut i: usize = 0;
        while i < n
            invariant
                i <= n,
                n == self@.len(),
                forall|j: int| 0 <= j < i ==> #[trigger] self@[j].fings.len() >= 1,
                n == 1 ==> self@[0].fings.len() == 1,
            decreases n - i,
        {
            if self.notes[i].fingerings.len() == 0 {
                assert(self@[i as int].fings.len() < 1);
                return false;
            }
            i = i + 1;
        }
        true
    }

    /// Go through the candidate sets and pick one fingering per note.
    pub fn select_fingerings(&self) -> (r: Vec<Fingering>)
        requires
            resolvable(self@),
        ensures
            r@.len() == self@.len(),
            forall|i: int| 0 <= i < self@.len() ==> #[trigger] r@[i]@ == resolve_at(self@, i),
    {
        let n = self.notes.len();
        let mut out: Vec<Fingering> = Vec::new();
        let mut prev: Fingering = Fingering::new(crate::keys::KeySet::empty());
        let mut i: usize = 0;
        while i < n
            invariant
                i <= n,
                n == self@.len(),
                resolvable(self@),
                out@.len() == i,
                forall|j: int| 0 <= j < i ==> #[trigger] out@[j]@ == resolve_at(self@, j),
                i >= 1 ==> prev@ == resolve_at(self@, i - 1),
            decreases n - i,
        {
            let cands = &self.notes[i].fingerings;
            assert(fings_of(cands@) == self@[i as int].fings);
            assert(self@[i as int].fings.len() >= 1);
            let chosen: Fingering;
            if cands.len() == 1 {
                chosen = cands[0];
            } else if i == 0 {
                assert(n >= 2) by {
                    assert(self@[0].fings.len() != 1);
                }
                let ctx = &self.notes[1].fingerings;
                assert(fings_of(ctx@) == self@[1].fings);
                assert(self@[1].fings.len() >= 1);
                chosen = fold_candidates(cands, ctx, true);
            } else {
                let mut ctx: Vec<Fingering> = Vec::new();
                ctx.push(prev);
                proof {
                    assert(fings_of(ctx@) =~= seq![resolve_at(self@, i - 1)]);
                }
                chosen = fold_candidates(cands, &ctx, false);
            }
            out.push(chosen);
            prev = chosen;
            i = i + 1;
        }
        out
    }

    /// One chart per note: the chosen fingering of each position,
    /// rendered against the whole-piece key-usage set.
    pub fn cell_images(&self, piece: KeySet, atlas: &GlyphAtlas) -> (r: Vec<Bitmap>)
        requires
            atlas@.wf(),
            resolvable(self@),
        ensures
            r@.len() == self@.len(),
            views_of(r@) == cell_views(self@, piece@, atlas@),
            cells_wf(r@),
            forall|i: int| 0 <= i < r@.len() ==> (#[trigger] r@[i])@.width == CHART_WIDTH
                && r@[i]@.height == CHART_HEIGHT,
    {
        let ghost cv = cell_views(self@, piece@, atlas@);
        let chosen = self.select_fingerings();
        let mut out: Vec<Bitmap> = Vec::new();
        let mut i: usize = 0;
        while i < chosen.len()
            invariant
                i <= chosen@.len(),
                chosen@.len() == self@.len(),
                atlas@.wf(),
                cv == cell_views(self@, piece@, atlas@),
                forall|k: int| 0 <= k < chosen@.len() ==> (#[trigger] chosen@[k])@ == resolve_at(
                    self@,
                    k,
                ),
                out@.len() == i,
                forall|k: int| 0 <= k < i ==> (#[trigger] out@[k])@ == cv[k],
                forall|k: int| 0 <= k < i ==> (#[trigger] out@[k]).wf(),
                forall|k: int| 0 <= k < i ==> (#[trigger] out@[k])@.width == CHART_WIDTH
                    && out@[k]@.height == CHART_HEIGHT,
            decreases chosen@.len() - i,
        {
            let byte = self.notes[i].byte;
            assert(byte == self@[i as int].byte);
            let bm = chosen[i].gen_chart(byte, piece, atlas);
            out.push(bm);
            i = i + 1;
        }
        proof {
            assert(views_of(out@) =~= cv);
        }
        out
    }

    /// The track's charts cut into rows of at most `notes_per_row` and
    /// rendered, each row its cells left to right with a spacing-wide
    /// gap before each.
    pub fn row_images(
        &self,
        piece: KeySet,
        atlas: &GlyphAtlas,
        notes_per_row: usize,
        spacing: usize,
    ) -> (r: Vec<Bitmap>)
        requires
            atlas@.wf(),
            resolvable(self@),
            notes_per_row >= 1,
            charts_fit(self@.len(), spacing as nat),
        ensures
            r@.len() == chunks_of(cell_views(self@, piece@, atlas@), notes_per_row as int).len(),
            forall|k: int| 0 <= k < r@.len() ==> (#[trigger] r@[k])@ == rows_views(
                cell_views(self@, piece@, atlas@),
                notes_per_row as int,
                spacing as nat,
            )[k],
            cells_wf(r@),
    {
        let cells = self.cell_images(piece, atlas);
        proof {
            lemma_uniform_layout_fits(views_of(cells@), spacing as nat);
        }
        crate::layout::row_images(&cells, notes_per_row, spacing)
    }

    /// The whole track rendered as one image: its rows concatenated
    /// top to bottom with a spacing-wide gap before each.
    pub fn track_image(
        &self,
        piece: KeySet,
        atlas: &GlyphAtlas,
        notes_per_row: usize,
        spacing: usize,
    ) -> (r: Bitmap)
        requires
            atlas@.wf(),
            resolvable(self@),
            notes_per_row >= 1,
            charts_fit(self@.len(), spacing as nat),
        ensures
            r.wf(),
            r@ == track_spec(
                rows_views(
                    cell_views(self@, piece@, atlas@),
                    notes_per_row as int,
                    spacing as nat,
                ),
                spacing as nat,
            ),
    {
        let cells = self.cell_images(piece, atlas);
        proof {
            lemma_uniform_layout_fits(views_of(cells@), spacing as nat);
        }
        crate::layout::track_image(&cells, notes_per_row, spacing)
    }
}

/// The chart of every position of a track, in order.
pub open spec fn cell_views(track: Seq<NoteView>, piece: u32, atlas: AtlasView) -> Seq<ImageView> {
    Seq::new(
        track.len(),
        |i: int| chart_spec(atlas, resolve_at(track, i), piece, track[i].byte),
    )
}

/// The layout of `count` fixed-size charts stays within the machine's
/// address range.
pub open spec fn charts_fit(count: nat, s: nat) -> bool {
    &&& count * (CHART_WIDTH + s) <= usize::MAX
    &&& count * (CHART_HEIGHT + s) <= usize::MAX
    &&& (count * (CHART_WIDTH + s)) * (count * (CHART_HEIGHT + s)) <= usize::MAX
}

proof fn lemma_uniform_sums(cells: Seq<ImageView>)
    requires
        forall|i: int| 0 <= i < cells.len() ==> (#[trigger] cells[i]).width == CHART_WIDTH
            && cells[i].height == CHART_HEIGHT,
    ensures
        sum_widths(cells) == cells.len() * CHART_WIDTH,
        sum_heights(cells) == cells.len() * CHART_HEIGHT,
    decreases cells.len(),
{
    if cells.len() > 0 {
        lemma_uniform_sums(cells.drop_last());
        assert((cells.len() - 1) * CHART_WIDTH + CHART_WIDTH == cells.len() * CHART_WIDTH)
            by (nonlinear_arith);
        assert((cells.len() - 1) * CHART_HEIGHT + CHART_HEIGHT == cells.len() * CHART_HEIGHT)
            by (nonlinear_arith);
    }
}

/// For fixed-size charts the general layout bound follows from the
/// chart count alone.
proof fn lemma_uniform_layout_fits(cells: Seq<ImageView>, s: nat)
    requires
        forall|i: int| 0 <= i < cells.len() ==> (#[trigger] cells[i]).width == CHART_WIDTH
            && cells[i].height == CHART_HEIGHT,
        charts_fit(cells.len(), s),
    ensures
        layout_fits(cells, s),
{
    lemma_uniform_sums(cells);
    assert(cells.len() * CHART_WIDTH + cells.len() * s == cells.len() * (CHART_WIDTH + s))
        by (nonlinear_arith);
    assert(cells.len() * CHART_HEIGHT + cells.len() * s == cells.len() * (CHART_HEIGHT + s))
        by (nonlinear_arith);
    assert(row_span(cells, s) == cells.len() * (CHART_WIDTH + s));
    assert(col_span(cells, s) == cells.len() * (CHART_HEIGHT + s));
}

/// Whether `charts_fit` holds of a chart count and spacing, decided at
/// run time.
pub fn charts_fit_check(count: usize, spacing: usize) -> (r: bool)
    ensures
        r == charts_fit(count as nat, spacing as nat),
{
    if count == 0 {
        proof {
            let s = spacing as nat;
            assert(0nat * (CHART_WIDTH + s) == 0 && 0nat * (CHART_HEIGHT + s) == 0)
                by (nonlinear_arith);
        }
        return true;
    }
    let w = match CHART_WIDTH.checked_add(spacing) {
        Some(w) => w,
        None => {
            proof {
                lemma_count_times_ge(count as nat, (CHART_WIDTH + spacing) as nat);
            }
            return false;
        },
    };
    let h = match CHART_HEIGHT.checked_add(spacing) {
        Some(h) => h,
        None => {
            proof {
                lemma_count_times_ge(count as nat, (CHART_HEIGHT + spacing) as nat);
            }
            return false;
        },
    };
    let rw = match count.checked_mul(w) {
        Some(rw) => rw,
        None => {
            return false;
        },
    };
    let rh = match count.checked_mul(h) {
        Some(rh) => rh,
        None => {
            return false;
        },
    };
    match rw.checked_mul(rh) {
        Some(_) => true,
        None => false,
    }
}

proof fn lemma_count_times_ge(count: nat, x: nat)
    requires
        count >= 1,
    ensures
        count * x >= x,
{
    assert(count * x >= x) by (nonlinear_arith)
        requires
            count >= 1,
            x >= 0,
    ;
}

} // verus!
