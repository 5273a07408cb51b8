//! Properties of the library that span its operations.

use vstd::prelude::*;
use crate::half_block::{
    all_empty, crop_outcome, first_frame, groups_cropped, is_bbox_of, is_crop_of,
    lemma_bbox_unique, lemma_crop_outcome_shape, opaque_at, union_box, spec_half_block, union_points, valid_frame, visible, Bbox,
    HbFrame, lemma_crop_outcome_unique, same_groups,
};
use crate::pet::{
    render_draws, render_start, rendered_pet, scroll_delta, spec_idle_variant, spec_sleep_variant,
    PetModel, State, Wander, ANIM_COUNT, ANIM_WALK_DOWN, ANIM_WALK_LEFT, ANIM_WALK_RIGHT,
    ANIM_WALK_UP, IDLE_TO_SLEEP_TICKS,
};
use crate::input::{dump_count, forwarded, input_actions, keys_from, kept_from, lemma_actions_from_forward};
use crate::raster::{decoded_rgba, resampled_rgba, Filter};
use crate::sprite::{frames_cut, lemma_frames_cut_unique, sheet_frames, FRAME_PIXELS, SOURCE_SCALE_DOWN};
use crate::screen::{blank_cell, min_int, rows_text, Cell, ScreenModel};

verus! {

/// Cropping gives every frame one size, so that the pet keeps its size
/// while its animations cycle: when all frames have one size before
/// cropping, all have one size after.
pub proof fn law_crop_keeps_one_size(gs: Seq<Vec<HbFrame>>, rs: Seq<Vec<HbFrame>>, w: u16, h: u16)
    requires
        forall|g: int, i: int|
            #![trigger gs[g]@[i]]
            valid_frame(gs, g, i) ==> gs[g]@[i].width_cells == w && gs[g]@[i].height_cells == h,
        crop_outcome(gs, rs),
    ensures
        forall|g: int, i: int, g2: int, i2: int|
            #![trigger rs[g]@[i], rs[g2]@[i2]]
            valid_frame(rs, g, i) && valid_frame(rs, g2, i2) ==> rs[g]@[i].width_cells
                == rs[g2]@[i2].width_cells && rs[g]@[i].height_cells == rs[g2]@[i2].height_cells,
{
    lemma_crop_outcome_shape(gs, rs);
    if all_empty(gs) {
    } else {
        let pts = union_points(
            gs,
            first_frame(gs).width_cells as int,
            first_frame(gs).height_cells as int,
        );
        if pts != Set::<(int, int)>::empty() {
            let b = choose|b: Bbox| is_bbox_of(b, pts) && groups_cropped(rs, gs, b);
            assert forall|g: int, i: int, g2: int, i2: int|
                #![trigger rs[g]@[i], rs[g2]@[i2]]
                valid_frame(rs, g, i) && valid_frame(rs, g2, i2) implies rs[g]@[i].width_cells
                == rs[g2]@[i2].width_cells && rs[g]@[i].height_cells == rs[g2]@[i2].height_cells by {
                assert(is_crop_of(rs[g]@[i], gs[g]@[i], b));
                assert(is_crop_of(rs[g2]@[i2], gs[g2]@[i2], b));
            }
        }
    }
}

/// Cropping loses no visible cell: one offset, shared by all frames, maps
/// every visible cell (in the window of the first frame's size) to a cell of
/// the cropped frame that shows the same.
pub proof fn law_crop_keeps_visible_cells(gs: Seq<Vec<HbFrame>>, rs: Seq<Vec<HbFrame>>)
    requires
        !all_empty(gs),
        crop_outcome(gs, rs),
    ensures
        forall|g: int, i: int, y: int, x: int|
            #![trigger gs[g]@[i].spec_cell(y, x)]
            valid_frame(gs, g, i) && opaque_at(
                gs[g]@[i],
                first_frame(gs).width_cells as int,
                first_frame(gs).height_cells as int,
                (x, y),
            ) ==> {
                let b = union_box(gs);
                &&& 0 <= y - b.2 < rs[g]@[i].height_cells
                &&& 0 <= x - b.0 < rs[g]@[i].width_cells
                &&& rs[g]@[i].spec_cell(y - b.2, x - b.0) == gs[g]@[i].spec_cell(y, x)
            },
{
    let w = first_frame(gs).width_cells as int;
    let h = first_frame(gs).height_cells as int;
    let pts = union_points(gs, w, h);
    if pts == Set::<(int, int)>::empty() {
        assert forall|g: int, i: int, y: int, x: int|
            #![trigger gs[g]@[i].spec_cell(y, x)]
            valid_frame(gs, g, i) && opaque_at(gs[g]@[i], w, h, (x, y)) implies false by {
            assert(pts.contains((x, y)));
        }
    } else {
        let b = choose|b: Bbox| is_bbox_of(b, pts) && groups_cropped(rs, gs, b);
        lemma_bbox_unique(b, union_box(gs), pts);
        assert forall|g: int, i: int, y: int, x: int|
            #![trigger gs[g]@[i].spec_cell(y, x)]
            valid_frame(gs, g, i) && opaque_at(gs[g]@[i], w, h, (x, y)) implies {
                &&& 0 <= y - b.2 < rs[g]@[i].height_cells
                &&& 0 <= x - b.0 < rs[g]@[i].width_cells
                &&& rs[g]@[i].spec_cell(y - b.2, x - b.0) == gs[g]@[i].spec_cell(y, x)
            } by {
            assert(pts.contains((x, y)));
            assert(is_crop_of(rs[g]@[i], gs[g]@[i], b));
            assert(rs[g]@[i].spec_cell(y - b.2, x - b.0) == gs[g]@[i].spec_cell(
                b.2 + (y - b.2),
                b.0 + (x - b.0),
            ));
        }
    }
}

/// Cropping trims all transparent padding: when some cell is visible, each
/// of the four edges of the cropped frames holds a visible cell in some frame.
pub proof fn law_crop_is_tight(gs: Seq<Vec<HbFrame>>, rs: Seq<Vec<HbFrame>>)
    requires
        !all_empty(gs),
        crop_outcome(gs, rs),
        union_points(gs, first_frame(gs).width_cells as int, first_frame(gs).height_cells as int)
            != Set::<(int, int)>::empty(),
    ensures
        exists|g: int, i: int, y: int|
            valid_frame(rs, g, i) && 0 <= y < rs[g]@[i].height_cells && !(#[trigger] rs[g]@[i].spec_cell(
                y,
                0,
            )).transparent,
        exists|g: int, i: int, y: int|
            valid_frame(rs, g, i) && 0 <= y < rs[g]@[i].height_cells && !(#[trigger] rs[g]@[i].spec_cell(
                y,
                rs[g]@[i].width_cells - 1,
            )).transparent,
        exists|g: int, i: int, x: int|
            valid_frame(rs, g, i) && 0 <= x < rs[g]@[i].width_cells && !(#[trigger] rs[g]@[i].spec_cell(
                0,
                x,
            )).transparent,
        exists|g: int, i: int, x: int|
            valid_frame(rs, g, i) && 0 <= x < rs[g]@[i].width_cells && !(#[trigger] rs[g]@[i].spec_cell(
                rs[g]@[i].height_cells - 1,
                x,
            )).transparent,
{
    let w = first_frame(gs).width_cells as int;
    let h = first_frame(gs).height_cells as int;
    let pts = union_points(gs, w, h);
    lemma_crop_outcome_shape(gs, rs);
    let b = choose|b: Bbox| is_bbox_of(b, pts) && groups_cropped(rs, gs, b);
    let p0 = choose|p: (int, int)| #[trigger] pts.contains(p) && p.0 == b.0;
    let p1 = choose|p: (int, int)| #[trigger] pts.contains(p) && p.0 == b.1;
    let p2 = choose|p: (int, int)| #[trigger] pts.contains(p) && p.1 == b.2;
    let p3 = choose|p: (int, int)| #[trigger] pts.contains(p) && p.1 == b.3;
    assert(pts.contains(p0) && pts.contains(p1) && pts.contains(p2) && pts.contains(p3));
    let (g0, i0) = choose|g: int, i: int| #![trigger gs[g]@[i]] valid_frame(gs, g, i) && opaque_at(gs[g]@[i], w, h, p0);
    assert(is_crop_of(rs[g0]@[i0], gs[g0]@[i0], b));
    assert(rs[g0]@[i0].spec_cell(p0.1 - b.2, 0) == gs[g0]@[i0].spec_cell(b.2 + (p0.1 - b.2), b.0 + 0));
    let (g1, i1) = choose|g: int, i: int| #![trigger gs[g]@[i]] valid_frame(gs, g, i) && opaque_at(gs[g]@[i], w, h, p1);
    assert(is_crop_of(rs[g1]@[i1], gs[g1]@[i1], b));
    assert(rs[g1]@[i1].spec_cell(p1.1 - b.2, b.1 - b.0) == gs[g1]@[i1].spec_cell(b.2 + (p1.1 - b.2), b.0 + (b.1 - b.0)));
    assert(!rs[g1]@[i1].spec_cell(p1.1 - b.2, rs[g1]@[i1].width_cells - 1).transparent);
    let (g2, i2) = choose|g: int, i: int| #![trigger gs[g]@[i]] valid_frame(gs, g, i) && opaque_at(gs[g]@[i], w, h, p2);
    assert(is_crop_of(rs[g2]@[i2], gs[g2]@[i2], b));
    assert(rs[g2]@[i2].spec_cell(0, p2.0 - b.0) == gs[g2]@[i2].spec_cell(b.2 + 0, b.0 + (p2.0 - b.0)));
    let (g3, i3) = choose|g: int, i: int| #![trigger gs[g]@[i]] valid_frame(gs, g, i) && opaque_at(gs[g]@[i], w, h, p3);
    assert(is_crop_of(rs[g3]@[i3], gs[g3]@[i3], b));
    assert(rs[g3]@[i3].spec_cell(b.3 - b.2, p3.0 - b.0) == gs[g3]@[i3].spec_cell(b.2 + (b.3 - b.2), b.0 + (p3.0 - b.0)));
    assert(!rs[g3]@[i3].spec_cell(rs[g3]@[i3].height_cells - 1, p3.0 - b.0).transparent);
}

/// Cropping again changes nothing: the frames of a cropped set already fill
/// their shared bounding box.
pub proof fn law_crop_idempotent(gs: Seq<Vec<HbFrame>>, rs: Seq<Vec<HbFrame>>, rs2: Seq<Vec<HbFrame>>)
    requires
        crop_outcome(gs, rs),
        crop_outcome(rs, rs2),
    ensures
        rs2.len() == rs.len(),
        forall|g: int| 0 <= g < rs.len() ==> (#[trigger] rs2[g])@.len() == rs[g]@.len(),
        forall|g: int, i: int|
            #![trigger rs2[g]@[i]]
            valid_frame(rs, g, i) ==> rs2[g]@[i].width_cells == rs[g]@[i].width_cells
                && rs2[g]@[i].height_cells == rs[g]@[i].height_cells && rs2[g]@[i].cells@
                == rs[g]@[i].cells@,
{
    lemma_crop_outcome_shape(gs, rs);
    lemma_crop_outcome_shape(rs, rs2);
    if all_empty(gs) {
        return;
    }
    let w = first_frame(gs).width_cells as int;
    let h = first_frame(gs).height_cells as int;
    let pts = union_points(gs, w, h);
    if pts == Set::<(int, int)>::empty() {
        return;
    }
    let b = choose|b: Bbox| is_bbox_of(b, pts) && groups_cropped(rs, gs, b);
    let nw = b.1 - b.0 + 1;
    let nh = b.3 - b.2 + 1;
    // Every cropped frame has the box's size.
    assert forall|g: int, i: int| #![trigger rs[g]@[i]] valid_frame(rs, g, i) implies rs[g]@[i].wf()
        && rs[g]@[i].width_cells == nw && rs[g]@[i].height_cells == nh by {
        assert(is_crop_of(rs[g]@[i], gs[g]@[i], b));
    }
    assert(!all_empty(rs)) by {
        let g0 = choose|g: int| 0 <= g < gs.len() && gs[g]@.len() != 0;
        assert(rs[g0]@.len() != 0);
    }
    crate::half_block::lemma_first_nonempty(rs);
    let f0 = choose|g: int| crate::half_block::is_first_nonempty(rs, g);
    assert(valid_frame(rs, f0, 0));
    let pr = union_points(rs, nw, nh);
    // The visible cells of the cropped frames are those of the uncropped frames, moved.
    assert forall|q: (int, int)| pr.contains(q) <==> pts.contains((q.0 + b.0, q.1 + b.2)) by {
        if pr.contains(q) {
            let (g, i) = choose|g: int, i: int| #![trigger rs[g]@[i]] valid_frame(rs, g, i) && opaque_at(rs[g]@[i], nw, nh, q);
            assert(is_crop_of(rs[g]@[i], gs[g]@[i], b));
            assert(rs[g]@[i].spec_cell(q.1, q.0) == gs[g]@[i].spec_cell(b.2 + q.1, b.0 + q.0));
            assert(valid_frame(gs, g, i) && opaque_at(gs[g]@[i], w, h, (q.0 + b.0, q.1 + b.2)));
        }
        if pts.contains((q.0 + b.0, q.1 + b.2)) {
            let p = (q.0 + b.0, q.1 + b.2);
            let (g, i) = choose|g: int, i: int| #![trigger gs[g]@[i]] valid_frame(gs, g, i) && opaque_at(gs[g]@[i], w, h, p);
            assert(is_crop_of(rs[g]@[i], gs[g]@[i], b));
            assert(rs[g]@[i].spec_cell(q.1, q.0) == gs[g]@[i].spec_cell(b.2 + q.1, b.0 + q.0));
            assert(valid_frame(rs, g, i) && opaque_at(rs[g]@[i], nw, nh, q));
        }
    }
    let full: Bbox = (0u16, (nw - 1) as u16, 0u16, (nh - 1) as u16);
    let p0 = choose|p: (int, int)| #[trigger] pts.contains(p) && p.0 == b.0;
    let p1 = choose|p: (int, int)| #[trigger] pts.contains(p) && p.0 == b.1;
    let p2 = choose|p: (int, int)| #[trigger] pts.contains(p) && p.1 == b.2;
    let p3 = choose|p: (int, int)| #[trigger] pts.contains(p) && p.1 == b.3;
    assert(pts.contains(p0) && pts.contains(p1) && pts.contains(p2) && pts.contains(p3));
    assert(pr.contains((p0.0 - b.0, p0.1 - b.2)));
    assert(pr.contains((p1.0 - b.0, p1.1 - b.2)));
    assert(pr.contains((p2.0 - b.0, p2.1 - b.2)));
    assert(pr.contains((p3.0 - b.0, p3.1 - b.2)));
    assert(pr != Set::<(int, int)>::empty());
    assert forall|q: (int, int)| #[trigger] pr.contains(q) implies full.0 <= q.0 <= full.1 && full.2
        <= q.1 <= full.3 by {
        assert(pts.contains((q.0 + b.0, q.1 + b.2)));
    }
    assert(is_bbox_of(full, pr));
    let b2 = choose|bb: Bbox| is_bbox_of(bb, pr) && groups_cropped(rs2, rs, bb);
    lemma_bbox_unique(b2, full, pr);
    assert forall|g: int, i: int|
        #![trigger rs2[g]@[i]]
        valid_frame(rs, g, i) implies rs2[g]@[i].width_cells == rs[g]@[i].width_cells
            && rs2[g]@[i].height_cells == rs[g]@[i].height_cells && rs2[g]@[i].cells@
            == rs[g]@[i].cells@ by {
        let r1 = rs[g]@[i];
        let r2 = rs2[g]@[i];
        assert(is_crop_of(r2, r1, full));
        assert forall|j: int| 0 <= j < r1.cells@.len() implies r2.cells@[j] == r1.cells@[j] by {
            crate::arith::lemma_split_cell(j, nw, nh);
            let y = j / nw;
            let x = j % nw;
            assert(r2.spec_cell(y, x) == r1.spec_cell(0 + y, 0 + x));
        }
        assert(r2.cells@ =~= r1.cells@);
    }
}

/// A half-block cell is transparent exactly when neither of its two pixels
/// is visible.
pub proof fn law_transparent_iff_both_hidden(top: Seq<u8>, bot: Seq<u8>)
    ensures
        spec_half_block(top, bot).transparent <==> (!visible(top) && !visible(bot)),
{
}

/// What is printed can be read back: printing a character with the cursor
/// inside the grid puts it into the cursor's cell and moves the cursor
/// one column right.
pub proof fn law_print_then_read(m: ScreenModel, ch: char)
    requires
        m.wf(),
        m.cursor_row < m.rows,
        m.cursor_col < m.cols,
    ensures
        m.printed(ch).cell(m.cursor_row as int, m.cursor_col as int) == (Cell { ch }),
        m.printed(ch).cursor_col == m.cursor_col + 1,
        m.printed(ch).cursor_row == m.cursor_row,
{
    crate::arith::lemma_grid_index_in_bounds(
        m.cursor_row as int,
        m.cursor_col as int,
        m.cols as int,
        m.rows as int,
    );
}

/// Scrolling by `n` lines moves every line up by `n`: what was at row
/// `r + n` is afterwards at row `r`, and the lines that come in are blank.
pub proof fn law_scroll_moves_lines_up(m: ScreenModel, n: u16, r: int, c: int)
    requires
        m.wf(),
        0 <= r < m.rows,
        0 <= c < m.cols,
    ensures
        r + n < m.rows ==> m.scrolled(n).cell(r, c) == m.cell(r + n, c),
        r + n >= m.rows ==> m.scrolled(n).cell(r, c) == blank_cell(),
        m.scrolled(n).wf(),
{
    let k = min_int(n as int, m.rows as int);
    crate::arith::lemma_grid_index_in_bounds(r, c, m.cols as int, m.rows as int);
    assert(k * m.cols <= m.rows * m.cols) by (nonlinear_arith)
        requires
            0 <= k <= m.rows,
    ;
    assert((r + k) * m.cols + c == r * m.cols + c + k * m.cols) by (nonlinear_arith);
    if r + n < m.rows {
        crate::arith::lemma_grid_index_in_bounds(r + n, c, m.cols as int, m.rows as int);
        assert(m.rows * m.cols == m.cols * m.rows) by (nonlinear_arith);
    } else {
        assert(r * m.cols + c >= m.rows * m.cols - k * m.cols) by (nonlinear_arith)
            requires
                r + k >= m.rows,
                0 <= c,
                0 <= r,
                m.cols >= 0,
        ;
        assert(m.rows * m.cols == m.cols * m.rows) by (nonlinear_arith);
    }
}

/// The dump of a screen has one line per row, each as long as a row plus
/// its line feed.
pub proof fn law_dump_size(m: ScreenModel, n: int)
    requires
        0 <= n,
    ensures
        rows_text(m, n).len() == n * (m.cols + 1),
    decreases n,
{
    if n > 0 {
        law_dump_size(m, n - 1);
        assert(n * (m.cols + 1) == (n - 1) * (m.cols + 1) + m.cols + 1) by (nonlinear_arith);
    }
}

/// A tick moves the pet by at most one cell, and only along a row while it
/// is not yet in its destination's column: it walks the columns first,
/// then the rows.
pub proof fn law_tick_one_step_columns_first(m: PetModel, due: bool, w: Wander)
    ensures
        ({
            let n = m.ticked(due, w);
            &&& (n.row == m.row && (n.col == m.col || n.col == m.col + 1 || n.col == m.col - 1))
                || (n.col == m.col && (n.row == m.row + 1 || n.row == m.row - 1))
            &&& n.row != m.row ==> m.col == m.target_col
            &&& n.col != m.col ==> m.col != m.target_col
        }),
{
}

/// A walking step brings the pet one cell closer to its destination.
pub proof fn law_tick_approaches_destination(m: PetModel, due: bool, w: Wander)
    requires
        !m.settles(),
        m.pause_ticks == 0,
    ensures
        ({
            let n = m.ticked(due, w);
            let dist = |a: int, b: int| if a >= b { a - b } else { b - a };
            &&& n.target_row == m.target_row && n.target_col == m.target_col
            &&& dist(n.row as int, n.target_row as int) + dist(n.col as int, n.target_col as int)
                + 1 == dist(m.row as int, m.target_row as int) + dist(m.col as int, m.target_col as int)
        }),
{
}

/// A well-formed pet can always tick, and stays well-formed: every
/// animation it can show exists, has frames and a duration for each.
pub proof fn law_tick_keeps_wf(m: PetModel, due: bool, w: Wander)
    requires
        m.wf(),
        m.counted().allows(w),
    ensures
        m.tick_ok(),
        m.ticked(due, w).wf(),
{
    let c = m.counted();
    assert(c.frame_counts == m.frame_counts);
    let a = c.anim_index() as int;
    assert(0 <= a < ANIM_COUNT) by {
        let i = choose|i: int| 0 <= i < 4 && m.active_idle_anim == spec_idle_variant(i);
        let j = choose|j: int| 0 <= j < 4 && m.active_sleep_anim == spec_sleep_variant(j);
    }
    assert(m.frame_counts[a] > 0);
    let n = m.ticked(due, w);
    if m.settles() && c.pause_ticks == 0 {
        assert(n.active_idle_anim == spec_idle_variant(w.idle_pick as int));
        assert(0 <= w.idle_pick < 4);
        assert(n.active_sleep_anim == spec_sleep_variant(w.sleep_pick as int));
    }
}

/// After a tick the frame position lies inside the animation shown, so the
/// frame can be drawn.
pub proof fn law_tick_frame_in_range(m: PetModel, due: bool, w: Wander)
    requires
        m.wf(),
        m.counted().allows(w),
    ensures
        m.ticked(due, w).current_frame < m.ticked(due, w).frame_counts[m.ticked(due, w).anim_index() as int],
{
    law_tick_keeps_wf(m, due, w);
    let n = m.ticked(due, w);
    let c = m.counted();
    assert(c.frame_counts == m.frame_counts);
    let i = choose|i: int| 0 <= i < 4 && m.active_idle_anim == spec_idle_variant(i);
    let j = choose|j: int| 0 <= j < 4 && m.active_sleep_anim == spec_sleep_variant(j);
    assert(0 <= c.anim_index() < ANIM_COUNT);
    assert(n.frame_counts[n.anim_index() as int] > 0);
}

/// A walking pet shows the walk of its direction.
pub proof fn law_walk_shows_direction(m: PetModel, due: bool, w: Wander)
    requires
        m.pause_ticks == 0,
        !m.settles(),
    ensures
        ({
            let n = m.ticked(due, w);
            &&& n.col > m.col ==> n.anim_index() == ANIM_WALK_RIGHT
            &&& n.col < m.col ==> n.anim_index() == ANIM_WALK_LEFT
            &&& n.row > m.row ==> n.anim_index() == ANIM_WALK_DOWN
            &&& n.row < m.row ==> n.anim_index() == ANIM_WALK_UP
        }),
{
}

/// A pet idle for long enough shows one of the sleeping poses.
pub proof fn law_long_idle_sleeps(m: PetModel)
    requires
        m.wf(),
        m.state == State::Idle,
        m.idle_ticks >= IDLE_TO_SLEEP_TICKS,
    ensures
        exists|i: int| 0 <= i < 4 && m.anim_index() == spec_sleep_variant(i),
{
}

/// Output that scrolls the screen past the pet makes the next render redraw
/// it (unless a full-screen program owns the screen), so no ghost of the
/// sprite stays behind.
pub proof fn law_scroll_forces_redraw(p: PetModel, s: ScreenModel)
    requires
        !s.alt_screen,
        scroll_delta(render_start(p), s) > 0,
    ensures
        render_draws(p, s),
{
}

/// While a full-screen program owns the screen nothing is drawn, and the
/// last drawing is forgotten.
pub proof fn law_alt_screen_pauses(p: PetModel, s: ScreenModel)
    requires
        s.alt_screen,
    ensures
        !render_draws(p, s),
        rendered_pet(p, s).last_drawn is None,
        rendered_pet(p, s).was_alt_screen,
{
}

/// A render that draws remembers what it drew, so an immediate second
/// render (nothing moved, nothing scrolled) draws nothing.
pub proof fn law_render_settles(p: PetModel, s: ScreenModel)
    requires
        !s.alt_screen,
    ensures
        !render_draws(rendered_pet(p, s), s),
{
    let q = rendered_pet(p, s);
    assert(s.scroll_count.wrapping_sub(s.scroll_count) == 0) by {
        assert(s.scroll_count - s.scroll_count == 0);
    }
}

/// The debug key never reaches the shell: the shell receives exactly the
/// user's input with the debug keys taken out, in order, and the screen is
/// dumped once for each debug key.
pub proof fn law_debug_key_is_withheld(input: Seq<u8>)
    requires
        input.len() <= usize::MAX,
    ensures
        forwarded(input, input_actions(input)) == kept_from(input, 0),
        dump_count(input_actions(input)) == keys_from(input, 0),
{
    lemma_actions_from_forward(input, 0, 0);
    assert(input.subrange(0, 0) + kept_from(input, 0) =~= kept_from(input, 0));
}

/// A pet on the screen stays on it: a tick keeps the pet and its
/// destination within the rows minus the sprite's height and the columns
/// minus its width (a new pet starts so, see `Pet::new`).
pub proof fn law_tick_stays_on_screen(m: PetModel, due: bool, w: Wander)
    requires
        m.on_screen(),
        m.counted().allows(w),
    ensures
        m.ticked(due, w).on_screen(),
{
}

/// While the pet stays idle, each tick counts one more idle tick.
pub proof fn law_idle_tick_counts(m: PetModel, due: bool, w: Wander)
    requires
        m.state == State::Idle,
        m.ticked(due, w).state == State::Idle,
        m.idle_ticks < u32::MAX,
    ensures
        m.ticked(due, w).idle_ticks == m.idle_ticks + 1,
{
}

proof fn lemma_idle_run_counts(ms: Seq<PetModel>, dues: Seq<bool>, ws: Seq<Wander>, k: int)
    requires
        0 <= k < ms.len(),
        ms.len() <= dues.len() + 1,
        ms.len() <= ws.len() + 1,
        ms.len() <= IDLE_TO_SLEEP_TICKS + 1,
        forall|j: int| 0 <= j < ms.len() - 1 ==> #[trigger] ms[j + 1] == ms[j].ticked(dues[j], ws[j]),
        forall|j: int| 0 <= j < ms.len() ==> (#[trigger] ms[j]).state == State::Idle,
    ensures
        ms[k].idle_ticks >= k,
    decreases k,
{
    if k > 0 {
        lemma_idle_run_counts(ms, dues, ws, k - 1);
        let j = k - 1;
        let m = ms[j];
        assert(ms[j + 1] == m.ticked(dues[j], ws[j]));
        assert(j + 1 == k);
        if m.idle_ticks < u32::MAX {
            law_idle_tick_counts(m, dues[k - 1], ws[k - 1]);
        }
    }
}

/// A pet that stayed idle through its last hundred ticks shows one of the
/// sleeping poses: `ms` are the pet's states before and after each of those
/// ticks, made with the frame timings `dues` and the random choices `ws`.
pub proof fn law_idle_run_sleeps(ms: Seq<PetModel>, dues: Seq<bool>, ws: Seq<Wander>)
    requires
        ms.len() == IDLE_TO_SLEEP_TICKS + 1,
        dues.len() == IDLE_TO_SLEEP_TICKS,
        ws.len() == IDLE_TO_SLEEP_TICKS,
        forall|j: int| 0 <= j < IDLE_TO_SLEEP_TICKS ==> #[trigger] ms[j + 1] == ms[j].ticked(dues[j], ws[j]),
        forall|j: int| 0 <= j <= IDLE_TO_SLEEP_TICKS ==> (#[trigger] ms[j]).state == State::Idle,
        ms[IDLE_TO_SLEEP_TICKS as int].wf(),
    ensures
        exists|i: int| 0 <= i < 4 && ms[IDLE_TO_SLEEP_TICKS as int].anim_index() == spec_sleep_variant(i),
{
    lemma_idle_run_counts(ms, dues, ws, IDLE_TO_SLEEP_TICKS as int);
    law_long_idle_sleeps(ms[IDLE_TO_SLEEP_TICKS as int]);
}

/// Scrolling by `a` lines and then by `b` lines is scrolling by `a + b`.
pub proof fn law_scrolls_add_up(s: ScreenModel, a: u16, b: u16)
    requires
        s.wf(),
        a + b <= u16::MAX,
    ensures
        s.scrolled(a).scrolled(b) == s.scrolled((a + b) as u16),
{
    let c = s.cols as int;
    let r = s.rows as int;
    let len = s.cells.len() as int;
    let k1 = min_int(a as int, r);
    let s1 = s.scrolled(a);
    let k2 = min_int(b as int, r);
    let k = min_int(a + b, r);
    let p1 = k1 * c;
    let p2 = k2 * c;
    let p = k * c;
    assert(len == r * c);
    assert(p1 <= len && p2 <= len && p <= len) by (nonlinear_arith)
        requires
            0 <= k1 <= r,
            0 <= k2 <= r,
            0 <= k <= r,
            c >= 0,
            len == r * c,
            p1 == k1 * c,
            p2 == k2 * c,
            p == k * c,
    ;
    assert(p == if p1 + p2 < len { p1 + p2 } else { len }) by (nonlinear_arith)
        requires
            k1 == min_int(a as int, r),
            k2 == min_int(b as int, r),
            k == min_int(a + b, r),
            a >= 0,
            b >= 0,
            r >= 0,
            c >= 0,
            len == r * c,
            p1 == k1 * c,
            p2 == k2 * c,
            p == k * c,
    ;
    assert(s1.cells.len() == len);
    assert(s1.wf());
    let two = s1.scrolled(b);
    let one = s.scrolled((a + b) as u16);
    assert(two.cells =~= one.cells) by {
        assert forall|i: int| 0 <= i < len implies #[trigger] two.cells[i] == one.cells[i] by {
            if i < len - p {
                assert(two.cells[i] == s1.cells[i + p2]);
                assert(s1.cells[i + p2] == s.cells[i + p2 + p1]);
            }
        }
    }
    assert(two.scroll_count == one.scroll_count);
}

/// Loading one animation (`load_frames`) gives the frames that loading it as
/// the only group (`load_animation_groups`) gives: both read the same sheet,
/// fail exactly when it does not decode, and otherwise give the same frames.
pub proof fn law_one_group_loads_alike(
    sheet: Seq<u8>,
    coords: Seq<(u32, u32)>,
    frames: Vec<HbFrame>,
    groups: Seq<Vec<HbFrame>>,
)
    requires
        sheet_frames(sheet, seq![coords], seq![frames]),
        sheet_frames(sheet, seq![coords], groups),
    ensures
        groups.len() == 1,
        same_groups(seq![frames], groups),
        decoded_rgba(sheet) is Some,
{
    let (iw, ih, data) = decoded_rgba(sheet).unwrap();
    let sw = (iw / SOURCE_SCALE_DOWN) as u32;
    let sh = (ih / SOURCE_SCALE_DOWN) as u32;
    let scaled = resampled_rgba(iw, ih, data, sw, sh, Filter::Lanczos3);
    let size = (FRAME_PIXELS / SOURCE_SCALE_DOWN) as u32;
    let pre1 = choose|pre: Seq<Vec<HbFrame>>|
        frames_cut(pre, scaled, sw, sh, seq![coords], SOURCE_SCALE_DOWN, size) && crop_outcome(pre, seq![frames]);
    let pre2 = choose|pre: Seq<Vec<HbFrame>>|
        frames_cut(pre, scaled, sw, sh, seq![coords], SOURCE_SCALE_DOWN, size) && crop_outcome(pre, groups);
    lemma_frames_cut_unique(pre1, pre2, scaled, sw, sh, seq![coords], SOURCE_SCALE_DOWN, size);
    lemma_crop_outcome_unique(pre1, pre2, seq![frames], groups);
}

/// A pet walking up or down stays in its column: vertical walks happen
/// only in the destination's column, and a tick keeps it so.
pub proof fn law_vertical_walk_keeps_column(m: PetModel, due: bool, w: Wander)
    requires
        m.wf(),
        m.legs_ok(),
    ensures
        m.ticked(due, w).legs_ok(),
        (m.anim_index() == ANIM_WALK_UP || m.anim_index() == ANIM_WALK_DOWN) ==> m.ticked(due, w).col == m.col,
{
    let i = choose|i: int| 0 <= i < 4 && m.active_idle_anim == spec_idle_variant(i);
    let j = choose|j: int| 0 <= j < 4 && m.active_sleep_anim == spec_sleep_variant(j);
    assert((m.anim_index() == ANIM_WALK_UP || m.anim_index() == ANIM_WALK_DOWN) ==> (m.state == State::WalkingUp
        || m.state == State::WalkingDown));
}

/// A tick keeps a steady pet steady (see `PetModel::steady`).
pub proof fn law_tick_keeps_steady(m: PetModel, due: bool, w: Wander)
    requires
        m.steady(),
        m.counted().allows(w),
    ensures
        m.ticked(due, w).steady(),
{
    law_tick_keeps_wf(m, due, w);
    law_tick_stays_on_screen(m, due, w);
    law_vertical_walk_keeps_column(m, due, w);
    law_tick_frame_in_range(m, due, w);
}

/// What one tick of a steady pet does to its position: one cell at most,
/// across first, and no change of column while it walks up or down.
pub open spec fn steady_step(m: PetModel, n: PetModel) -> bool {
    &&& (n.row == m.row && (n.col == m.col || n.col == m.col + 1 || n.col == m.col - 1))
        || (n.col == m.col && (n.row == m.row + 1 || n.row == m.row - 1))
    &&& (m.anim_index() == ANIM_WALK_UP || m.anim_index() == ANIM_WALK_DOWN) ==> n.col == m.col
}

proof fn lemma_steady_tick(m: PetModel, due: bool, w: Wander)
    requires
        m.steady(),
        m.counted().allows(w),
    ensures
        m.ticked(due, w).steady(),
        steady_step(m, m.ticked(due, w)),
{
    law_tick_keeps_steady(m, due, w);
    law_tick_one_step_columns_first(m, due, w);
    law_vertical_walk_keeps_column(m, due, w);
}

/// Every pet that ticking reaches from a new pet stays steady: `ms` are the
/// pet's states, the first one as `Pet::new` makes it (see its contract),
/// each next one a tick of the one before with the frame timing `dues[j]`
/// and the random choices `ws[j]` the generator can make. So every reached
/// pet is on the screen and shows a frame inside its animation, and each of
/// its ticks moves it one cell at most, across first, keeping its column
/// while it walks up or down.
pub proof fn law_reached_pets_stay_steady(ms: Seq<PetModel>, dues: Seq<bool>, ws: Seq<Wander>)
    requires
        ms.len() >= 1,
        dues.len() + 1 >= ms.len(),
        ws.len() + 1 >= ms.len(),
        ms[0].steady(),
        forall|j: int|
            0 <= j < ms.len() - 1 ==> #[trigger] ms[j].counted().allows(ws[j]) && ms[j + 1] == ms[j].ticked(
                dues[j],
                ws[j],
            ),
    ensures
        forall|k: int| 0 <= k < ms.len() ==> (#[trigger] ms[k]).steady(),
        forall|j: int| 0 <= j < ms.len() - 1 ==> steady_step(#[trigger] ms[j], ms[j + 1]),
    decreases ms.len(),
{
    if ms.len() > 1 {
        let pre = ms.drop_last();
        assert forall|j: int| 0 <= j < pre.len() - 1 implies #[trigger] pre[j].counted().allows(ws[j]) && pre[j
            + 1] == pre[j].ticked(dues[j], ws[j]) by {
            assert(pre[j] == ms[j] && pre[j + 1] == ms[j + 1]);
            assert(ms[j].counted().allows(ws[j]));
        }
        law_reached_pets_stay_steady(pre, dues, ws);
        let j = ms.len() - 2;
        assert(pre[j] == ms[j]);
        assert(pre[j].steady());
        assert(ms[j].counted().allows(ws[j]));
        lemma_steady_tick(ms[j], dues[j], ws[j]);
        assert forall|k: int| 0 <= k < ms.len() implies (#[trigger] ms[k]).steady() by {
            if k < ms.len() - 1 {
                assert(pre[k] == ms[k]);
            }
        }
        assert forall|i: int| 0 <= i < ms.len() - 1 implies steady_step(#[trigger] ms[i], ms[i + 1]) by {
            if i < j {
                assert(pre[i] == ms[i] && pre[i + 1] == ms[i + 1]);
                assert(steady_step(pre[i], pre[i + 1]));
            }
        }
    }
}

// ---------------------------------------------------------------------------
// The screen model: erasing and tab stops
// ---------------------------------------------------------------------------

/// Erasing the whole display (`CSI 2 J`, and `CSI 3 J`, which also drops
/// the scrollback) blanks every cell of the screen and leaves the cursor,
/// the size and the screen mode as they were.
pub proof fn law_erase_display_blanks_every_cell(s: ScreenModel, ps: Seq<Seq<u16>>, inter: Seq<u8>, y: int, x: int)
    requires
        s.wf(),
        ps.len() > 0,
        ps[0].len() > 0,
        ps[0][0] == 2 || ps[0][0] == 3,
    ensures
        s.csi(ps, inter, 'J').cell(y, x) == blank_cell(),
        s.csi(ps, inter, 'J').cursor_row == s.cursor_row,
        s.csi(ps, inter, 'J').cursor_col == s.cursor_col,
        s.csi(ps, inter, 'J').rows == s.rows,
        s.csi(ps, inter, 'J').cols == s.cols,
        s.csi(ps, inter, 'J').alt_screen == s.alt_screen,
{
    let t = s.csi(ps, inter, 'J');
    if 0 <= y < s.rows && 0 <= x < s.cols {
        crate::arith::lemma_grid_index_in_bounds(y, x, s.cols as int, s.rows as int);
        assert(s.cells.len() == s.rows * s.cols);
        assert(t.cells[t.idx(y, x)] == blank_cell());
    }
}

/// Erasing the whole line (`CSI 2 K`) blanks every cell of the cursor's row
/// and no other cell.
pub proof fn law_erase_line_blanks_the_cursor_row(s: ScreenModel, ps: Seq<Seq<u16>>, inter: Seq<u8>, y: int, x: int)
    requires
        s.wf(),
        ps.len() > 0,
        ps[0].len() > 0,
        ps[0][0] == 2,
        0 <= y < s.rows,
        0 <= x < s.cols,
    ensures
        s.csi(ps, inter, 'K').cell(y, x) == if y == s.cursor_row { blank_cell() } else { s.cell(y, x) },
{
    let c = s.cols as int;
    crate::arith::lemma_grid_index_in_bounds(y, x, c, s.rows as int);
    let i = s.idx(y, x);
    let rs = s.idx(s.cursor_row as int, 0);
    assert(rs == s.cursor_row * c);
    assert(i == y * c + x);
    if y < s.cursor_row {
        assert(y * c + c <= s.cursor_row * c) by (nonlinear_arith)
            requires
                y < s.cursor_row,
                c >= 0,
        ;
    } else if y > s.cursor_row {
        assert(s.cursor_row * c + c <= y * c) by (nonlinear_arith)
            requires
                y > s.cursor_row,
                c >= 0,
        ;
    }
}

/// Cursor positioning (`CSI row ; col H`, or `f`) puts the cursor at the
/// 1-based row and column given, when they lie on the screen; a missing
/// parameter counts as 1.
pub proof fn law_cursor_position(s: ScreenModel, ps: Seq<Seq<u16>>, inter: Seq<u8>, c: char, row: u16, col: u16)
    requires
        c == 'H' || c == 'f',
        1 <= row <= s.rows,
        1 <= col <= s.cols,
        ps.len() > 0 && ps[0].len() > 0 ==> ps[0][0] == row,
        !(ps.len() > 0 && ps[0].len() > 0) ==> row == 1,
        ps.len() > 1 && ps[1].len() > 0 ==> ps[1][0] == col,
        !(ps.len() > 1 && ps[1].len() > 0) ==> col == 1,
    ensures
        s.csi(ps, inter, c).cursor_row == row - 1,
        s.csi(ps, inter, c).cursor_col == col - 1,
        s.csi(ps, inter, c).cells == s.cells,
{
}

/// Cursor movement by `n` (`CSI n A`, `B`, `C`, `D`; a missing or zero
/// count moves by 1) moves the cursor `n` rows up or down or `n` columns
/// right or left, stopping at the screen's edge.
pub proof fn law_cursor_moves(s: ScreenModel, ps: Seq<Seq<u16>>, inter: Seq<u8>, n: int)
    requires
        s.rows > 0,
        s.cols > 0,
        n == if ps.len() > 0 && ps[0].len() > 0 && ps[0][0] > 0 { ps[0][0] as int } else { 1 },
    ensures
        s.csi(ps, inter, 'A').cursor_row == if s.cursor_row >= n { s.cursor_row - n } else { 0 },
        s.csi(ps, inter, 'B').cursor_row == if s.cursor_row + n <= s.rows - 1 { s.cursor_row + n } else { s.rows - 1 },
        s.csi(ps, inter, 'C').cursor_col == if s.cursor_col + n <= s.cols - 1 { s.cursor_col + n } else { s.cols - 1 },
        s.csi(ps, inter, 'D').cursor_col == if s.cursor_col >= n { s.cursor_col - n } else { 0 },
        s.csi(ps, inter, 'A').cursor_col == s.cursor_col,
        s.csi(ps, inter, 'C').cursor_row == s.cursor_row,
        s.csi(ps, inter, 'A').cells == s.cells,
        s.csi(ps, inter, 'C').cells == s.cells,
{
}

/// Erasing in the line (`CSI K` from the cursor to the end of the line,
/// `CSI 1 K` from its start to the cursor) blanks exactly those cells of
/// the cursor's row and no cell of another row.
pub proof fn law_erase_in_line(s: ScreenModel, ps: Seq<Seq<u16>>, inter: Seq<u8>, y: int, x: int)
    requires
        s.wf(),
        0 <= y < s.rows,
        0 <= x < s.cols,
    ensures
        param_or_zero(ps) == 0 ==> s.csi(ps, inter, 'K').cell(y, x) == if y == s.cursor_row && x
            >= s.cursor_col { blank_cell() } else { s.cell(y, x) },
        param_or_zero(ps) == 1 ==> s.csi(ps, inter, 'K').cell(y, x) == if y == s.cursor_row && x
            <= s.cursor_col { blank_cell() } else { s.cell(y, x) },
{
    let c = s.cols as int;
    crate::arith::lemma_grid_index_in_bounds(y, x, c, s.rows as int);
    assert(s.idx(y, x) == y * c + x);
    if y < s.cursor_row {
        assert(y * c + c <= s.cursor_row * c) by (nonlinear_arith)
            requires
                y < s.cursor_row,
                c >= 0,
        ;
    } else if y > s.cursor_row {
        assert(s.cursor_row * c + c <= y * c) by (nonlinear_arith)
            requires
                y > s.cursor_row,
                c >= 0,
        ;
    }
}

/// The first parameter of a sequence, 0 when missing.
pub open spec fn param_or_zero(ps: Seq<Seq<u16>>) -> int {
    if ps.len() > 0 && ps[0].len() > 0 { ps[0][0] as int } else { 0 }
}

/// Erasing in the display (`CSI J` from the cursor to the end of the
/// screen, `CSI 1 J` from its start to the cursor) blanks exactly the cells
/// at or after, or at or before, the cursor in reading order. A cursor
/// waiting past the last column stands, for this, on the first cell of the
/// next row.
pub proof fn law_erase_in_display(s: ScreenModel, ps: Seq<Seq<u16>>, inter: Seq<u8>, y: int, x: int)
    requires
        s.wf(),
        0 <= y < s.rows,
        0 <= x < s.cols,
    ensures
        param_or_zero(ps) == 0 ==> s.csi(ps, inter, 'J').cell(y, x) == if y > s.cursor_row || (y
            == s.cursor_row && x >= s.cursor_col) { blank_cell() } else { s.cell(y, x) },
        param_or_zero(ps) == 1 && s.cursor_col < s.cols ==> s.csi(ps, inter, 'J').cell(y, x) == if y
            < s.cursor_row || (y == s.cursor_row && x <= s.cursor_col) { blank_cell() } else { s.cell(y, x) },
        param_or_zero(ps) == 1 && s.cursor_col == s.cols ==> s.csi(ps, inter, 'J').cell(y, x) == if y
            <= s.cursor_row || (y == s.cursor_row + 1 && x == 0) { blank_cell() } else { s.cell(y, x) },
{
    let c = s.cols as int;
    let cr = s.cursor_row as int;
    let cc = s.cursor_col as int;
    crate::arith::lemma_grid_index_in_bounds(y, x, c, s.rows as int);
    assert(s.idx(y, x) == y * c + x);
    assert(s.cells.len() == s.rows * c);
    if y < cr {
        assert(y * c + c <= cr * c) by (nonlinear_arith)
            requires
                y < cr,
                c >= 0,
        ;
    } else if y > cr {
        assert(cr * c + c <= y * c) by (nonlinear_arith)
            requires
                y > cr,
                c >= 0,
        ;
        if y == cr + 1 {
            assert(y * c == cr * c + c) by (nonlinear_arith)
                requires
                    y == cr + 1,
            ;
        }
        if y > cr + 1 {
            assert(cr * c + c + c <= y * c) by (nonlinear_arith)
                requires
                    y > cr + 1,
                    c >= 0,
            ;
        }
    }
}

/// A tab moves the cursor to the next tab stop: the smallest multiple of 8
/// greater than its column, kept on the screen (at most the last column).
/// Nothing else changes.
pub proof fn law_tab_moves_to_the_next_stop(s: ScreenModel, stop: int)
    requires
        stop % 8 == 0,
        s.cursor_col < stop <= s.cursor_col + 8,
    ensures
        s.executed(9).cursor_col == min_int(stop, crate::screen::sat_sub(s.cols as int, 1)),
        s.executed(9).cursor_row == s.cursor_row,
        s.executed(9).cells == s.cells,
{
    let c = s.cursor_col as int;
    vstd::arithmetic::div_mod::lemma_fundamental_div_mod(c, 8);
    vstd::arithmetic::div_mod::lemma_fundamental_div_mod(stop, 8);
    let q = c / 8;
    let m = stop / 8;
    assert(m == q + 1) by (nonlinear_arith)
        requires
            c == 8 * q + c % 8,
            0 <= c % 8 < 8,
            stop == 8 * m + stop % 8,
            stop % 8 == 0,
            c < stop <= c + 8,
    ;
}

// ---------------------------------------------------------------------------
// The pet: resting and repainting
// ---------------------------------------------------------------------------

/// A resting pet counts its rest down by one each tick and stays where it
/// is, with the same destination, doing the same thing; so a pet away from
/// its destination sets off once the rest is over (see
/// `law_tick_approaches_destination`).
pub proof fn law_rest_counts_down(m: PetModel, due: bool, w: Wander)
    requires
        m.pause_ticks > 0,
    ensures
        m.ticked(due, w).pause_ticks == m.pause_ticks - 1,
        m.ticked(due, w).row == m.row,
        m.ticked(due, w).col == m.col,
        m.ticked(due, w).target_row == m.target_row,
        m.ticked(due, w).target_col == m.target_col,
        m.ticked(due, w).state == m.state,
        m.stepped(due, w).pause_ticks == m.pause_ticks - 1,
        m.stepped(due, w).row == m.row,
        m.stepped(due, w).col == m.col,
{
}

/// A resting pet away from its destination takes its first step exactly
/// when its rest is over: after `pause_ticks` ticks in place, the next tick
/// moves it one cell closer. `ms` are its states, tick by tick.
pub proof fn law_rest_then_walk(ms: Seq<PetModel>, dues: Seq<bool>, ws: Seq<Wander>)
    requires
        ms.len() == ms[0].pause_ticks + 2,
        dues.len() + 1 >= ms.len(),
        ws.len() + 1 >= ms.len(),
        !(ms[0].row == ms[0].target_row && ms[0].col == ms[0].target_col),
        forall|j: int| 0 <= j < ms.len() - 1 ==> #[trigger] ms[j + 1] == ms[j].ticked(dues[j], ws[j]),
    ensures
        forall|k: int|
            0 <= k < ms.len() - 1 ==> (#[trigger] ms[k]).row == ms[0].row && ms[k].col == ms[0].col
                && ms[k].pause_ticks == ms[0].pause_ticks - k,
        ms.last().row != ms[0].row || ms.last().col != ms[0].col,
    decreases ms.len(),
{
    lemma_rest_prefix(ms, dues, ws, ms.len() - 2);
    let j = ms.len() - 2;
    assert(ms[j + 1] == ms[j].ticked(dues[j], ws[j]));
    assert(ms[j].pause_ticks == 0);
    law_tick_approaches_destination(ms[j], dues[j], ws[j]);
    assert forall|k: int| 0 <= k < ms.len() - 1 implies (#[trigger] ms[k]).row == ms[0].row && ms[k].col
        == ms[0].col && ms[k].pause_ticks == ms[0].pause_ticks - k by {
        lemma_rest_prefix(ms, dues, ws, k);
    }
}

proof fn lemma_rest_prefix(ms: Seq<PetModel>, dues: Seq<bool>, ws: Seq<Wander>, k: int)
    requires
        ms.len() == ms[0].pause_ticks + 2,
        dues.len() + 1 >= ms.len(),
        ws.len() + 1 >= ms.len(),
        0 <= k < ms.len() - 1,
        forall|j: int| 0 <= j < ms.len() - 1 ==> #[trigger] ms[j + 1] == ms[j].ticked(dues[j], ws[j]),
    ensures
        ms[k].row == ms[0].row,
        ms[k].col == ms[0].col,
        ms[k].target_row == ms[0].target_row,
        ms[k].target_col == ms[0].target_col,
        ms[k].pause_ticks == ms[0].pause_ticks - k,
    decreases k,
{
    if k > 0 {
        lemma_rest_prefix(ms, dues, ws, k - 1);
        let j = k - 1;
        assert(ms[j + 1] == ms[j].ticked(dues[j], ws[j]));
        law_rest_counts_down(ms[j], dues[j], ws[j]);
    }
}

/// A pet that arrives (no rest left, at its destination) takes the random
/// choices: it goes idle with the destination and rest drawn, and with the
/// idle pose drawn among wash, yawn, lying wash and scratch and the sleeping
/// pose among curl, loaf, head-down and stretch, in that order of the
/// picks; it does not move on that tick.
pub proof fn law_arrival_takes_the_choices(m: PetModel, due: bool, w: Wander)
    requires
        m.pause_ticks == 0,
        m.row == m.target_row,
        m.col == m.target_col,
        w.idle_pick < 4,
        w.sleep_pick < 4,
    ensures
        ({
            let n = m.ticked(due, w);
            &&& n.state == State::Idle
            &&& n.row == m.row && n.col == m.col
            &&& n.target_row == w.target_row && n.target_col == w.target_col
            &&& n.pause_ticks == w.pause_ticks
            &&& n.active_idle_anim == seq![0usize, 6, 10, 11][w.idle_pick as int]
            &&& n.active_sleep_anim == seq![5usize, 7, 8, 9][w.sleep_pick as int]
        }),
{
    let n = m.ticked(due, w);
    assert(seq![0usize, 6, 10, 11][w.idle_pick as int] == spec_idle_variant(w.idle_pick as int));
    assert(seq![5usize, 7, 8, 9][w.sleep_pick as int] == spec_sleep_variant(w.sleep_pick as int));
}

/// The frame moves on by one, wrapping to the first, exactly when its time
/// is up; otherwise it stays (before any restart that entering a new
/// state brings).
pub proof fn law_frame_advances_when_due(m: PetModel, w: Wander)
    requires
        m.frame_counts[m.anim_index() as int] > 0,
        m.current_frame < m.frame_counts[m.anim_index() as int] <= usize::MAX,
        m.pause_ticks > 0,
    ensures
        m.stepped(true, w).current_frame == if m.current_frame + 1 == m.frame_counts[m.anim_index() as int] {
            0
        } else {
            m.current_frame + 1
        },
        m.stepped(false, w).current_frame == m.current_frame,
{
    let n = m.frame_counts[m.anim_index() as int] as int;
    let f = m.current_frame as int;
    if f + 1 < n {
        vstd::arithmetic::div_mod::lemma_small_mod((f + 1) as nat, n as nat);
    } else {
        vstd::arithmetic::div_mod::lemma_mod_self_0(n);
    }
}

/// `small` occurs in `big`.
pub open spec fn occurs_in(big: Seq<char>, small: Seq<char>) -> bool {
    exists|i: int| 0 <= i && i + small.len() <= big.len() && #[trigger] big.subrange(i, i + small.len()) == small
}

proof fn lemma_occurs_in_concat(a: Seq<char>, b: Seq<char>, small: Seq<char>)
    ensures
        occurs_in(a, small) ==> occurs_in(a + b, small),
        occurs_in(b, small) ==> occurs_in(a + b, small),
{
    if occurs_in(a, small) {
        let i = choose|i: int| 0 <= i && i + small.len() <= a.len() && #[trigger] a.subrange(i, i + small.len()) == small;
        assert((a + b).subrange(i, i + small.len()) =~= a.subrange(i, i + small.len()));
    }
    if occurs_in(b, small) {
        let i = choose|i: int| 0 <= i && i + small.len() <= b.len() && #[trigger] b.subrange(i, i + small.len()) == small;
        assert((a + b).subrange(a.len() + i, a.len() + i + small.len()) =~= b.subrange(i, i + small.len()));
    }
}

/// The text that repaints screen cell (`y`, `x`): the cursor moved there,
/// the default colours, and the character the shell left there (a space for
/// an empty cell).
pub open spec fn repaint_of(s: ScreenModel, y: int, x: int) -> Seq<char> {
    crate::half_block::cursor_seq(y, x) + "\x1b[0m"@ + seq![
        if s.cell(y, x).ch == '\0' {
            ' '
        } else {
            s.cell(y, x).ch
        },
    ]
}

proof fn lemma_row_repaints(s: ScreenModel, y: int, x0: int, right: int, x: int)
    requires
        x0 <= x < right,
    ensures
        occurs_in(crate::pet::restore_row_text(s, y, x0, right), repaint_of(s, y, x)),
    decreases right - x0,
{
    let head = crate::pet::restore_cell_text(s, y, x0);
    let rest = crate::pet::restore_row_text(s, y, x0 + 1, right);
    assert(crate::pet::restore_row_text(s, y, x0, right) == head + rest);
    if x == x0 {
        let r = repaint_of(s, y, x);
        assert(head == r);
        assert(head.subrange(0, 0 + r.len() as int) =~= r);
        assert(occurs_in(head, r));
    } else {
        lemma_row_repaints(s, y, x0 + 1, right, x);
    }
    lemma_occurs_in_concat(head, rest, repaint_of(s, y, x));
}

proof fn lemma_area_repaints(s: ScreenModel, top: int, bottom: int, left: int, right: int, y: int, x: int)
    requires
        top <= y < bottom,
        left <= x < right,
    ensures
        occurs_in(crate::pet::restore_text(s, top, bottom, left, right), repaint_of(s, y, x)),
    decreases bottom - top,
{
    let row = crate::pet::restore_row_text(s, top, left, right);
    let rest = crate::pet::restore_text(s, top + 1, bottom, left, right);
    assert(crate::pet::restore_text(s, top, bottom, left, right) == row + rest);
    if y == top {
        lemma_row_repaints(s, y, left, right, x);
    } else {
        lemma_area_repaints(s, top + 1, bottom, left, right, y, x);
    }
    lemma_occurs_in_concat(row, rest, repaint_of(s, y, x));
}

/// A render repaints every screen cell that the last drawing covered: with
/// the pet last drawn at (`or`, `oc`), each cell (`y`, `x`) with
/// `or <= y < min(or + cell_h, rows)` and `oc <= x < min(oc + cell_w, cols)`
/// is repainted from the screen model in the text that restores the old
/// area (which `render_pet` writes before drawing the pet anew), whatever
/// the screen scrolled meanwhile.
pub proof fn law_render_repaints_the_old_area(p: PetModel, s: ScreenModel, y: int, x: int)
    requires
        render_start(p).last_drawn matches Some((or, oc, _a, _f)) && or <= y < min_int(or + p.cell_h, s.rows as int)
            && oc <= x < min_int(oc + p.cell_w, s.cols as int),
    ensures
        occurs_in(
            crate::pet::ghost_text(render_start(p), s, scroll_delta(render_start(p), s)),
            repaint_of(s, y, x),
        ),
{
    let q = render_start(p);
    let (or, oc, _a, _f) = q.last_drawn.unwrap();
    let delta = scroll_delta(q, s);
    let top = crate::screen::sat_sub(or as int, delta);
    let bottom = min_int(min_int(or + q.cell_h, u16::MAX as int), s.rows as int);
    let right = min_int(oc + q.cell_w, s.cols as int);
    assert(top <= or);
    lemma_area_repaints(s, top, bottom, oc as int, right, y, x);
}

// ---------------------------------------------------------------------------
// The sprite sheet's layout
// ---------------------------------------------------------------------------

/// The pixels of the 32 x 32 frame whose top-left corner is (`x`, `y`) on
/// the sheet `img`, resampled to `size` x `size` with `filter`.
pub open spec fn sheet_frame(img: crate::raster::Pixels, x: u32, y: u32, size: u32, filter: Filter) -> Seq<u8> {
    let win = crate::raster::crop_window(img, x, y, 32, 32);
    resampled_rgba(win.2 as u32, win.3 as u32, crate::raster::crop_data(img, x, y, 32, 32), size, size, filter)
}

/// Where each animation stands on the cat sheet, and how it plays: frame
/// `k` of each animation is the `k`-th 32-pixel frame from the left of its
/// row, and the animations have these rows, frame counts and frame times:
/// wash 1152 (8 frames, 250 ms), walk right 192 (8, 100 ms), walk left 224
/// (8, 100 ms), walk up 160 (4, 100 ms), walk down 128 (4, 100 ms), curled
/// sleep 512 (1, 1000 ms), yawn 1024 (8, 250 ms), loaf 384 (1, 1000 ms),
/// head-down sleep 448 (1, 1000 ms), stretched sleep 576 (1, 1000 ms),
/// lying wash 1216 (7, 250 ms), scratch 1280 (8, 250 ms).
pub proof fn law_sheet_layout(img: crate::raster::Pixels, k: u32, size: u32, filter: Filter)
    requires
        k < 8,
    ensures
        ({
            let x = (32 * k) as u32;
            let fp = |a: usize| crate::setup::frame_pixels(img, a as int, k as int, size, filter);
            &&& fp(crate::pet::ANIM_WASH) == sheet_frame(img, x, 1152, size, filter)
            &&& fp(ANIM_WALK_RIGHT) == sheet_frame(img, x, 192, size, filter)
            &&& fp(ANIM_WALK_LEFT) == sheet_frame(img, x, 224, size, filter)
            &&& fp(ANIM_WALK_UP) == sheet_frame(img, x, 160, size, filter)
            &&& fp(ANIM_WALK_DOWN) == sheet_frame(img, x, 128, size, filter)
            &&& fp(crate::pet::ANIM_SLEEP_CURL) == sheet_frame(img, x, 512, size, filter)
            &&& fp(crate::pet::ANIM_YAWN) == sheet_frame(img, x, 1024, size, filter)
            &&& fp(crate::pet::ANIM_SLEEP_LOAF) == sheet_frame(img, x, 384, size, filter)
            &&& fp(crate::pet::ANIM_SLEEP_HEAD) == sheet_frame(img, x, 448, size, filter)
            &&& fp(crate::pet::ANIM_SLEEP_STRETCH) == sheet_frame(img, x, 576, size, filter)
            &&& fp(crate::pet::ANIM_WASH_LIE) == sheet_frame(img, x, 1216, size, filter)
            &&& fp(crate::pet::ANIM_SCRATCH) == sheet_frame(img, x, 1280, size, filter)
        }),
        crate::setup::anim_frames(crate::pet::ANIM_WASH as int) == 8,
        crate::setup::anim_frames(ANIM_WALK_RIGHT as int) == 8,
        crate::setup::anim_frames(ANIM_WALK_LEFT as int) == 8,
        crate::setup::anim_frames(ANIM_WALK_UP as int) == 4,
        crate::setup::anim_frames(ANIM_WALK_DOWN as int) == 4,
        crate::setup::anim_frames(crate::pet::ANIM_SLEEP_CURL as int) == 1,
        crate::setup::anim_frames(crate::pet::ANIM_YAWN as int) == 8,
        crate::setup::anim_frames(crate::pet::ANIM_SLEEP_LOAF as int) == 1,
        crate::setup::anim_frames(crate::pet::ANIM_SLEEP_HEAD as int) == 1,
        crate::setup::anim_frames(crate::pet::ANIM_SLEEP_STRETCH as int) == 1,
        crate::setup::anim_frames(crate::pet::ANIM_WASH_LIE as int) == 7,
        crate::setup::anim_frames(crate::pet::ANIM_SCRATCH as int) == 8,
        crate::setup::anim_frame_ms(crate::pet::ANIM_WASH as int) == 250,
        crate::setup::anim_frame_ms(ANIM_WALK_RIGHT as int) == 100,
        crate::setup::anim_frame_ms(ANIM_WALK_LEFT as int) == 100,
        crate::setup::anim_frame_ms(ANIM_WALK_UP as int) == 100,
        crate::setup::anim_frame_ms(ANIM_WALK_DOWN as int) == 100,
        crate::setup::anim_frame_ms(crate::pet::ANIM_SLEEP_CURL as int) == 1000,
        crate::setup::anim_frame_ms(crate::pet::ANIM_YAWN as int) == 250,
        crate::setup::anim_frame_ms(crate::pet::ANIM_SLEEP_LOAF as int) == 1000,
        crate::setup::anim_frame_ms(crate::pet::ANIM_SLEEP_HEAD as int) == 1000,
        crate::setup::anim_frame_ms(crate::pet::ANIM_SLEEP_STRETCH as int) == 1000,
        crate::setup::anim_frame_ms(crate::pet::ANIM_WASH_LIE as int) == 250,
        crate::setup::anim_frame_ms(crate::pet::ANIM_SCRATCH as int) == 250,
{
}

} // verus!
