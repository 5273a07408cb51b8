//! Half-block rendering: every terminal cell shows two vertically stacked
//! source pixels, using the upper-half-block glyph with a foreground and a
//! background colour (or the lower-half-block glyph when only the bottom
//! pixel is visible).

use vstd::prelude::*;
use crate::text::{decimal, push_char, push_decimal};

verus! {

/// One terminal cell of a half-block frame.
#[derive(Clone, Copy)]
pub struct HbCell {
    pub ch: char,
    pub fg: Option<(u8, u8, u8)>,
    pub bg: Option<(u8, u8, u8)>,
    pub transparent: bool,
}

/// A frame of terminal cells, stored row by row.
pub struct HbFrame {
    pub width_cells: u16,
    pub height_cells: u16,
    pub cells: Vec<HbCell>,
}

/// Alpha at or above this value makes a pixel visible.
pub const ALPHA_VISIBLE: u8 = 128;

/// A pixel, given as its red, green, blue and alpha bytes, is drawn.
pub open spec fn visible(p: Seq<u8>) -> bool {
    p[3] >= 128
}

pub open spec fn rgb_of(p: Seq<u8>) -> (u8, u8, u8) {
    (p[0], p[1], p[2])
}

/// The cell that shows pixel `top` above pixel `bot`.
pub open spec fn spec_half_block(top: Seq<u8>, bot: Seq<u8>) -> HbCell {
    if !visible(top) && !visible(bot) {
        HbCell { ch: ' ', fg: None, bg: None, transparent: true }
    } else if visible(top) && !visible(bot) {
        HbCell { ch: '\u{2580}', fg: Some(rgb_of(top)), bg: None, transparent: false }
    } else if !visible(top) && visible(bot) {
        HbCell { ch: '\u{2584}', fg: Some(rgb_of(bot)), bg: None, transparent: false }
    } else {
        HbCell { ch: '\u{2580}', fg: Some(rgb_of(top)), bg: Some(rgb_of(bot)), transparent: false }
    }
}

impl HbFrame {
    /// The index of cell (`row`, `col`) in the row-major cell vector.
    pub open spec fn index_of(&self, row: int, col: int) -> int {
        row * self.width_cells + col
    }

    /// The cell shown at (`row`, `col`).
    pub open spec fn spec_cell(&self, row: int, col: int) -> HbCell {
        self.cells@[self.index_of(row, col)]
    }

    /// Every (row, column) with `row < h` and `col < w` names a stored cell.
    pub open spec fn readable(&self, w: int, h: int) -> bool {
        forall|y: int, x: int|
            0 <= y < h && 0 <= x < w ==> 0 <= #[trigger] self.index_of(y, x) < self.cells@.len()
    }

    /// A `w` x `h` window can be read exactly when it is empty or the frame
    /// holds at least `w` times `h` cells.
    pub proof fn lemma_readable_iff_size(&self, w: int, h: int)
        requires
            0 <= w,
            0 <= h,
            self.width_cells == w,
        ensures
            self.readable(w, h) <==> (w == 0 || h == 0 || w * h <= self.cells@.len()),
    {
        if w > 0 && h > 0 {
            if self.readable(w, h) {
                assert(0 <= self.index_of(h - 1, w - 1) < self.cells@.len());
                assert((h - 1) * w + (w - 1) + 1 == w * h) by (nonlinear_arith)
                    requires
                        w > 0,
                        h > 0,
                ;
            }
            if w * h <= self.cells@.len() {
                assert forall|y: int, x: int| 0 <= y < h && 0 <= x < w implies 0 <= #[trigger] self.index_of(
                    y,
                    x,
                ) < self.cells@.len() by {
                    crate::arith::lemma_grid_index_in_bounds(y, x, w, h);
                }
            }
        }
    }

    /// The frame holds exactly one cell per (row, column).
    pub open spec fn wf(&self) -> bool {
        self.cells@.len() == self.width_cells * self.height_cells
    }

    /// A well-formed frame can be read in its own window.
    pub proof fn lemma_wf_readable(&self)
        requires
            self.wf(),
        ensures
            self.readable(self.width_cells as int, self.height_cells as int),
    {
        assert forall|y: int, x: int|
            0 <= y < self.height_cells && 0 <= x < self.width_cells implies 0
            <= #[trigger] self.index_of(y, x) < self.cells@.len() by {
            crate::arith::lemma_grid_index_in_bounds(
                y,
                x,
                self.width_cells as int,
                self.height_cells as int,
            );
        }
    }

    /// The cell at (`row`, `col`), read at index `row * width + col`.
    pub fn cell_at(&self, row: u16, col: u16) -> (c: HbCell)
        requires
            self.index_of(row as int, col as int) < self.cells@.len(),
        ensures
            c == self.spec_cell(row as int, col as int),
    {
        proof {
            crate::arith::lemma_grid_index_fits(row as int, self.width_cells as int, col as int);
        }
        let i = (row as usize) * (self.width_cells as usize) + col as usize;
        self.cells[i]
    }
}

pub(crate) fn half_block_for(top: [u8; 4], bot: [u8; 4]) -> (c: HbCell)
    ensures
        c == spec_half_block(top@, bot@),
{
    let on_top = top[3] >= ALPHA_VISIBLE;
    let on_bot = bot[3] >= ALPHA_VISIBLE;
    if !on_top && !on_bot {
        return HbCell { ch: ' ', fg: None, bg: None, transparent: true };
    }
    if on_top && !on_bot {
        return HbCell { ch: '\u{2580}', fg: Some((top[0], top[1], top[2])), bg: None, transparent: false };
    }
    if !on_top && on_bot {
        return HbCell { ch: '\u{2584}', fg: Some((bot[0], bot[1], bot[2])), bg: None, transparent: false };
    }
    HbCell {
        ch: '\u{2580}',
        fg: Some((top[0], top[1], top[2])),
        bg: Some((bot[0], bot[1], bot[2])),
        transparent: false,
    }
}

/// The pixel at column `x`, row `y` of an RGBA image of `width` x `height`
/// pixels stored row by row, four bytes per pixel; transparent black outside.
pub open spec fn pixel_at(data: Seq<u8>, width: u32, height: u32, x: int, y: int) -> Seq<u8> {
    if x >= width || y >= height {
        seq![0u8, 0u8, 0u8, 0u8]
    } else {
        let i = (y * width + x) * 4;
        data.subrange(i, i + 4)
    }
}

/// The number of cell columns a `width`-pixel wide image gives (kept to 16 bits).
pub open spec fn hb_cols(width: u32) -> u16 {
    width as u16
}

/// The number of cell rows a `height`-pixel high image gives (kept to 16 bits).
pub open spec fn hb_rows(height: u32) -> u16 {
    (height / 2) as u16
}

/// The byte offset of the last pixel that the conversion reads.
pub open spec fn last_sample_offset(width: u32, height: u32) -> int {
    ((2 * hb_rows(height) - 1) * width + hb_cols(width) - 1) * 4
}

/// Every pixel the conversion reads lies inside `data`, and its offset fits in 32 bits.
pub open spec fn rgba_readable(data: Seq<u8>, width: u32, height: u32) -> bool {
    hb_cols(width) > 0 && hb_rows(height) > 0 ==> {
        &&& last_sample_offset(width, height) + 3 < data.len()
        &&& last_sample_offset(width, height) <= 0xffff_ffff
    }
}

fn sample(data: &[u8], width: u32, height: u32, x: u32, y: u32) -> (p: [u8; 4])
    requires
        x < width && y < height ==> (y * width + x) * 4 + 3 < data@.len() && (y * width + x) * 4
            <= 0xffff_ffff,
    ensures
        p@ == pixel_at(data@, width, height, x as int, y as int),
{
    if x >= width || y >= height {
        let p = [0u8, 0u8, 0u8, 0u8];
        assert(p@ =~= seq![0u8, 0u8, 0u8, 0u8]);
        return p;
    }
    let i = ((y * width + x) * 4) as usize;
    let p = [data[i], data[i + 1], data[i + 2], data[i + 3]];
    assert(p@ =~= data@.subrange(i as int, i + 4));
    p
}

/// `f` shows the RGBA image `data` of `width` x `height` pixels: cell
/// (row, col) shows pixel (col, 2 * row) above pixel (col, 2 * row + 1).
pub open spec fn is_rgba_frame(f: HbFrame, data: Seq<u8>, width: u32, height: u32) -> bool {
    &&& f.width_cells == hb_cols(width)
    &&& f.height_cells == hb_rows(height)
    &&& f.wf()
    &&& forall|y: int, x: int|
        0 <= y < f.height_cells && 0 <= x < f.width_cells ==> #[trigger] f.spec_cell(y, x)
            == spec_half_block(
            pixel_at(data, width, height, x, 2 * y),
            pixel_at(data, width, height, x, 2 * y + 1),
        )
}

/// Converts raw RGBA bytes (four per pixel, row by row) into a half-block
/// frame: cell (row, col) shows pixel (col, 2 * row) above pixel (col, 2 * row + 1).
pub fn frame_from_rgba_bytes(data: &[u8], width: u32, height: u32) -> (f: HbFrame)
    requires
        rgba_readable(data@, width, height),
    ensures
        is_rgba_frame(f, data@, width, height),
{
    let cell_w = width as u16;
    let cell_h = (height / 2) as u16;
    let mut cells: Vec<HbCell> = Vec::new();
    let mut cy: u16 = 0;
    while cy < cell_h
        invariant
            cell_w == hb_cols(width),
            cell_h == hb_rows(height),
            rgba_readable(data@, width, height),
            cy <= cell_h,
            cells@.len() == cy * cell_w,
            forall|y: int, x: int|
                0 <= y < cy && 0 <= x < cell_w ==> #[trigger] cells@[y * cell_w + x]
                    == spec_half_block(
                    pixel_at(data@, width, height, x, 2 * y),
                    pixel_at(data@, width, height, x, 2 * y + 1),
                ),
        decreases cell_h - cy,
    {
        let mut cx: u16 = 0;
        while cx < cell_w
            invariant
                cell_w == hb_cols(width),
                cell_h == hb_rows(height),
                rgba_readable(data@, width, height),
                cy < cell_h,
                cx <= cell_w,
                cells@.len() == cy * cell_w + cx,
                forall|y: int, x: int|
                    0 <= y < cy && 0 <= x < cell_w ==> #[trigger] cells@[y * cell_w + x]
                        == spec_half_block(
                        pixel_at(data@, width, height, x, 2 * y),
                        pixel_at(data@, width, height, x, 2 * y + 1),
                    ),
                forall|x: int|
                    0 <= x < cx ==> #[trigger] cells@[cy * cell_w + x] == spec_half_block(
                        pixel_at(data@, width, height, x, 2 * cy),
                        pixel_at(data@, width, height, x, 2 * cy + 1),
                    ),
            decreases cell_w - cx,
        {
            let px = cx as u32;
            let py = (cy as u32) * 2;
            proof {
                let last = (2 * cell_h - 1) as int;
                assert(py * width + px <= last * width + cell_w - 1 && (py + 1) * width + px <= last
                    * width + cell_w - 1) by (nonlinear_arith)
                    requires
                        py + 1 <= last,
                        px < cell_w,
                        width >= 0,
                ;
            }
            let top = sample(data, width, height, px, py);
            let bot = sample(data, width, height, px, py + 1);
            let c = half_block_for(top, bot);
            let ghost old_cells = cells@;
            cells.push(c);
            proof {
                assert forall|y: int, x: int|
                    0 <= y < cy && 0 <= x < cell_w implies #[trigger] cells@[y * cell_w + x]
                    == spec_half_block(
                    pixel_at(data@, width, height, x, 2 * y),
                    pixel_at(data@, width, height, x, 2 * y + 1),
                ) by {
                    crate::arith::lemma_grid_index_in_bounds(y, x, cell_w as int, cy as int);
                    assert(cells@[y * cell_w + x] == old_cells[y * cell_w + x]);
                }
                assert forall|x: int| 0 <= x < cx + 1 implies #[trigger] cells@[cy * cell_w + x]
                    == spec_half_block(
                    pixel_at(data@, width, height, x, 2 * cy),
                    pixel_at(data@, width, height, x, 2 * cy + 1),
                ) by {
                    if x < cx {
                        assert(cells@[cy * cell_w + x] == old_cells[cy * cell_w + x]);
                    }
                }
            }
            cx = cx + 1;
        }
        proof {
            crate::arith::lemma_next_row(cy as int, cell_w as int);
        }
        cy = cy + 1;
    }
    assert(cell_h * cell_w == cell_w * cell_h) by (nonlinear_arith);
    let f = HbFrame { width_cells: cell_w, height_cells: cell_h, cells };
    assert forall|y: int, x: int|
        0 <= y < f.height_cells && 0 <= x < f.width_cells implies #[trigger] f.spec_cell(y, x)
        == spec_half_block(
        pixel_at(data@, width, height, x, 2 * y),
        pixel_at(data@, width, height, x, 2 * y + 1),
    ) by {
        assert(f.spec_cell(y, x) == cells@[y * cell_w + x]);
    }
    f
}

// ---------------------------------------------------------------------------
// Cropping a set of animations to the union bounding box of their visible cells
// ---------------------------------------------------------------------------

/// A bounding box of cell coordinates: (min column, max column, min row, max row).
pub type Bbox = (u16, u16, u16, u16);

/// The box that no cell has been added to yet.
pub open spec fn empty_bbox() -> Bbox {
    (0xffffu16, 0u16, 0xffffu16, 0u16)
}

/// Whether `b` is exactly the bounding box of the points `pts` (column, row),
/// or the empty box when there are none.
pub open spec fn is_bbox_of(b: Bbox, pts: Set<(int, int)>) -> bool {
    if pts == Set::<(int, int)>::empty() {
        b == empty_bbox()
    } else {
        &&& forall|p: (int, int)| #[trigger]
            pts.contains(p) ==> b.0 <= p.0 <= b.1 && b.2 <= p.1 <= b.3
        &&& exists|p: (int, int)| #[trigger] pts.contains(p) && p.0 == b.0
        &&& exists|p: (int, int)| #[trigger] pts.contains(p) && p.0 == b.1
        &&& exists|p: (int, int)| #[trigger] pts.contains(p) && p.1 == b.2
        &&& exists|p: (int, int)| #[trigger] pts.contains(p) && p.1 == b.3
    }
}

/// The box grown to hold column `x`, row `y`.
pub open spec fn extend_bbox(b: Bbox, x: u16, y: u16) -> Bbox {
    (
        if x < b.0 { x } else { b.0 },
        if x > b.1 { x } else { b.1 },
        if y < b.2 { y } else { b.2 },
        if y > b.3 { y } else { b.3 },
    )
}

/// Whether the cell at column `p.0`, row `p.1` lies in the `w` x `h` window
/// and is visible.
pub open spec fn opaque_at(f: HbFrame, w: int, h: int, p: (int, int)) -> bool {
    &&& 0 <= p.0 < w
    &&& 0 <= p.1 < h
    &&& !f.spec_cell(p.1, p.0).transparent
}

/// The visible cells of `f` within the `w` x `h` window.
pub open spec fn frame_points(f: HbFrame, w: int, h: int) -> Set<(int, int)> {
    Set::new(|p: (int, int)| opaque_at(f, w, h, p))
}

/// The visible cells of `f` that come before row `y`, column `x` in row-major order.
pub open spec fn frame_points_before(f: HbFrame, w: int, h: int, y: int, x: int) -> Set<
    (int, int),
> {
    Set::new(|p: (int, int)| opaque_at(f, w, h, p) && (p.1 < y || (p.1 == y && p.0 < x)))
}

/// Frame `i` of group `g` exists in `gs`.
pub open spec fn valid_frame(gs: Seq<Vec<HbFrame>>, g: int, i: int) -> bool {
    0 <= g < gs.len() && 0 <= i < gs[g]@.len()
}

/// The visible cells of the frames of `gs` that come before frame `ti` of group `tg`.
pub open spec fn points_before(gs: Seq<Vec<HbFrame>>, w: int, h: int, tg: int, ti: int) -> Set<
    (int, int),
> {
    Set::new(
        |p: (int, int)|
            exists|g: int, i: int|
                #![trigger gs[g]@[i]]
                valid_frame(gs, g, i) && (g < tg || (g == tg && i < ti)) && opaque_at(
                    gs[g]@[i],
                    w,
                    h,
                    p,
                ),
    )
}

/// The visible cells of all frames of `gs`, each read in the `w` x `h` window.
pub open spec fn union_points(gs: Seq<Vec<HbFrame>>, w: int, h: int) -> Set<(int, int)> {
    Set::new(
        |p: (int, int)|
            exists|g: int, i: int|
                #![trigger gs[g]@[i]]
                valid_frame(gs, g, i) && opaque_at(gs[g]@[i], w, h, p),
    )
}

/// No group holds a frame.
pub open spec fn all_empty(gs: Seq<Vec<HbFrame>>) -> bool {
    forall|g: int| 0 <= g < gs.len() ==> #[trigger] gs[g]@.len() == 0
}

/// `g` is the first group that holds a frame.
pub open spec fn is_first_nonempty(gs: Seq<Vec<HbFrame>>, g: int) -> bool {
    &&& 0 <= g < gs.len()
    &&& gs[g]@.len() > 0
    &&& forall|j: int| 0 <= j < g ==> #[trigger] gs[j]@.len() == 0
}

/// The first frame of the first group that holds one.
pub open spec fn first_frame(gs: Seq<Vec<HbFrame>>) -> HbFrame {
    gs[choose|g: int| is_first_nonempty(gs, g)]@[0]
}

/// When some group holds a frame, there is a first such group.
pub proof fn lemma_first_nonempty(gs: Seq<Vec<HbFrame>>)
    requires
        !all_empty(gs),
    ensures
        is_first_nonempty(gs, choose|g: int| is_first_nonempty(gs, g)),
    decreases gs.len(),
{
    if gs[0]@.len() > 0 {
        assert(is_first_nonempty(gs, 0));
    } else {
        let t = gs.drop_first();
        let k = choose|g: int| 0 <= g < gs.len() && gs[g]@.len() != 0;
        assert(t[k - 1]@.len() != 0);
        lemma_first_nonempty(t);
        let g1 = choose|g: int| is_first_nonempty(t, g);
        assert forall|j: int| 0 <= j < g1 + 1 implies #[trigger] gs[j]@.len() == 0 by {
            if j > 0 {
                assert(gs[j] == t[j - 1]);
            }
        }
        assert(is_first_nonempty(gs, g1 + 1));
    }
}

/// Every frame can be read in the window of the first frame's size.
pub open spec fn groups_readable(gs: Seq<Vec<HbFrame>>) -> bool {
    !all_empty(gs) ==> forall|g: int, i: int|
        #![trigger gs[g]@[i]]
        valid_frame(gs, g, i) ==> gs[g]@[i].readable(
            first_frame(gs).width_cells as int,
            first_frame(gs).height_cells as int,
        )
}

/// Well-formed frames that all have one size can be read in the first one's window.
pub proof fn lemma_uniform_readable(gs: Seq<Vec<HbFrame>>, w: u16, h: u16)
    requires
        forall|g: int, i: int|
            #![trigger gs[g]@[i]]
            valid_frame(gs, g, i) ==> gs[g]@[i].wf() && gs[g]@[i].width_cells == w
                && gs[g]@[i].height_cells == h,
    ensures
        groups_readable(gs),
{
    if !all_empty(gs) {
        lemma_first_nonempty(gs);
        let g0 = choose|g: int| is_first_nonempty(gs, g);
        assert(valid_frame(gs, g0, 0));
        assert forall|g: int, i: int| #![trigger gs[g]@[i]] valid_frame(gs, g, i) implies gs[g]@[i].readable(
            w as int,
            h as int,
        ) by {
            gs[g]@[i].lemma_wf_readable();
        }
    }
}

/// `r` is the part of `f` inside box `b`, row by row.
pub open spec fn is_crop_of(r: HbFrame, f: HbFrame, b: Bbox) -> bool {
    &&& r.width_cells == b.1 - b.0 + 1
    &&& r.height_cells == b.3 - b.2 + 1
    &&& r.wf()
    &&& forall|y: int, x: int|
        0 <= y < r.height_cells && 0 <= x < r.width_cells ==> #[trigger] r.spec_cell(y, x)
            == f.spec_cell(b.2 + y, b.0 + x)
}

/// `rs` has the shape of `gs`, every frame cropped to box `b`.
pub open spec fn groups_cropped(rs: Seq<Vec<HbFrame>>, gs: Seq<Vec<HbFrame>>, b: Bbox) -> bool {
    &&& rs.len() == gs.len()
    &&& forall|g: int| 0 <= g < gs.len() ==> (#[trigger] rs[g])@.len() == gs[g]@.len()
    &&& forall|g: int, i: int|
        #![trigger rs[g]@[i]]
        valid_frame(gs, g, i) ==> is_crop_of(rs[g]@[i], gs[g]@[i], b)
}

/// What cropping `gs` to the union bounding box gives: unchanged when no frame
/// or no visible cell exists, else every frame cut to the box of all visible
/// cells (read in the window of the first frame's size).
pub open spec fn crop_outcome(gs: Seq<Vec<HbFrame>>, rs: Seq<Vec<HbFrame>>) -> bool {
    if all_empty(gs) {
        rs == gs
    } else {
        let pts = union_points(
            gs,
            first_frame(gs).width_cells as int,
            first_frame(gs).height_cells as int,
        );
        if pts == Set::<(int, int)>::empty() {
            rs == gs
        } else {
            exists|b: Bbox| is_bbox_of(b, pts) && groups_cropped(rs, gs, b)
        }
    }
}

/// Cropping keeps the number of groups and of frames in each group.
pub proof fn lemma_crop_outcome_shape(gs: Seq<Vec<HbFrame>>, rs: Seq<Vec<HbFrame>>)
    requires
        crop_outcome(gs, rs),
    ensures
        rs.len() == gs.len(),
        forall|g: int| 0 <= g < gs.len() ==> (#[trigger] rs[g])@.len() == gs[g]@.len(),
{
    if !all_empty(gs) {
        let pts = union_points(
            gs,
            first_frame(gs).width_cells as int,
            first_frame(gs).height_cells as int,
        );
        if pts != Set::<(int, int)>::empty() {
            let b = choose|b: Bbox| is_bbox_of(b, pts) && groups_cropped(rs, gs, b);
        }
    }
}

/// The bounding box of the visible cells of all frames of `gs`.
pub open spec fn union_box(gs: Seq<Vec<HbFrame>>) -> Bbox {
    choose|b: Bbox|
        is_bbox_of(
            b,
            union_points(gs, first_frame(gs).width_cells as int, first_frame(gs).height_cells as int),
        )
}

/// A set of points has one bounding box.
pub proof fn lemma_bbox_unique(b1: Bbox, b2: Bbox, pts: Set<(int, int)>)
    requires
        is_bbox_of(b1, pts),
        is_bbox_of(b2, pts) || b2 == choose|b: Bbox| is_bbox_of(b, pts),
    ensures
        b1 == b2,
{
    assert(is_bbox_of(b2, pts));
    if pts != Set::<(int, int)>::empty() {
        let p0 = choose|p: (int, int)| #[trigger] pts.contains(p) && p.0 == b1.0;
        let p1 = choose|p: (int, int)| #[trigger] pts.contains(p) && p.0 == b1.1;
        let p2 = choose|p: (int, int)| #[trigger] pts.contains(p) && p.1 == b1.2;
        let p3 = choose|p: (int, int)| #[trigger] pts.contains(p) && p.1 == b1.3;
        let q0 = choose|p: (int, int)| #[trigger] pts.contains(p) && p.0 == b2.0;
        let q1 = choose|p: (int, int)| #[trigger] pts.contains(p) && p.0 == b2.1;
        let q2 = choose|p: (int, int)| #[trigger] pts.contains(p) && p.1 == b2.2;
        let q3 = choose|p: (int, int)| #[trigger] pts.contains(p) && p.1 == b2.3;
        assert(pts.contains(p0) && pts.contains(p1) && pts.contains(p2) && pts.contains(p3));
        assert(pts.contains(q0) && pts.contains(q1) && pts.contains(q2) && pts.contains(q3));
    }
}

/// Two frames with one size and the same cells.
pub open spec fn same_frame(a: HbFrame, b: HbFrame) -> bool {
    &&& a.width_cells == b.width_cells
    &&& a.height_cells == b.height_cells
    &&& a.cells@ == b.cells@
}

/// Two lists of animations with the same frames, group by group.
pub open spec fn same_groups(a: Seq<Vec<HbFrame>>, b: Seq<Vec<HbFrame>>) -> bool {
    &&& a.len() == b.len()
    &&& forall|g: int| 0 <= g < a.len() ==> (#[trigger] a[g])@.len() == b[g]@.len()
    &&& forall|g: int, i: int|
        #![trigger a[g]@[i]]
        valid_frame(a, g, i) ==> same_frame(a[g]@[i], b[g]@[i])
}

/// Well-formed frames of one size that show the same cell everywhere have
/// the same cells.
pub proof fn lemma_same_cells(a: HbFrame, b: HbFrame)
    requires
        a.wf(),
        b.wf(),
        a.width_cells == b.width_cells,
        a.height_cells == b.height_cells,
        forall|y: int, x: int|
            0 <= y < a.height_cells && 0 <= x < a.width_cells ==> #[trigger] a.spec_cell(y, x)
                == b.spec_cell(y, x),
    ensures
        same_frame(a, b),
{
    let w = a.width_cells as int;
    let h = a.height_cells as int;
    assert forall|j: int| 0 <= j < a.cells@.len() implies a.cells@[j] == b.cells@[j] by {
        crate::arith::lemma_split_cell(j, w, h);
        assert(a.spec_cell(j / w, j % w) == b.spec_cell(j / w, j % w));
    }
    assert(a.cells@ =~= b.cells@);
}

/// The first group holding a frame is unique.
proof fn lemma_first_nonempty_unique(gs: Seq<Vec<HbFrame>>, g1: int, g2: int)
    requires
        is_first_nonempty(gs, g1),
        is_first_nonempty(gs, g2),
    ensures
        g1 == g2,
{
    if g1 < g2 {
        assert(gs[g1]@.len() == 0);
    } else if g2 < g1 {
        assert(gs[g2]@.len() == 0);
    }
}

/// Cropping gives the same frames from the same frames.
pub proof fn lemma_crop_outcome_unique(
    gs1: Seq<Vec<HbFrame>>,
    gs2: Seq<Vec<HbFrame>>,
    rs1: Seq<Vec<HbFrame>>,
    rs2: Seq<Vec<HbFrame>>,
)
    requires
        same_groups(gs1, gs2),
        crop_outcome(gs1, rs1),
        crop_outcome(gs2, rs2),
    ensures
        same_groups(rs1, rs2),
{
    if all_empty(gs1) {
        assert(all_empty(gs2)) by {
            assert forall|g: int| 0 <= g < gs2.len() implies #[trigger] gs2[g]@.len() == 0 by {
                assert(gs1[g]@.len() == gs2[g]@.len());
            }
        }
    } else {
        assert(!all_empty(gs2)) by {
            let g = choose|g: int| 0 <= g < gs1.len() && !(#[trigger] gs1[g]@.len() == 0);
            assert(gs1[g]@.len() == gs2[g]@.len());
        }
        lemma_first_nonempty(gs1);
        lemma_first_nonempty(gs2);
        let c1 = choose|g: int| is_first_nonempty(gs1, g);
        let c2 = choose|g: int| is_first_nonempty(gs2, g);
        assert(is_first_nonempty(gs2, c1)) by {
            assert(gs1[c1]@.len() == gs2[c1]@.len());
            assert forall|j: int| 0 <= j < c1 implies #[trigger] gs2[j]@.len() == 0 by {
                assert(gs1[j]@.len() == gs2[j]@.len());
            }
        }
        lemma_first_nonempty_unique(gs2, c1, c2);
        assert(valid_frame(gs1, c1, 0));
        let f1 = first_frame(gs1);
        let f2 = first_frame(gs2);
        assert(same_frame(gs1[c1]@[0], gs2[c1]@[0]));
        let w = f1.width_cells as int;
        let h = f1.height_cells as int;
        let pts1 = union_points(gs1, w, h);
        let pts2 = union_points(gs2, f2.width_cells as int, f2.height_cells as int);
        assert(pts1 =~= pts2) by {
            assert forall|p: (int, int)| pts1.contains(p) implies pts2.contains(p) by {
                let (g, i) = choose|g: int, i: int|
                    #![trigger gs1[g]@[i]]
                    valid_frame(gs1, g, i) && opaque_at(gs1[g]@[i], w, h, p);
                assert(same_frame(gs1[g]@[i], gs2[g]@[i]));
                assert(valid_frame(gs2, g, i) && opaque_at(gs2[g]@[i], w, h, p));
            }
            assert forall|p: (int, int)| pts2.contains(p) implies pts1.contains(p) by {
                let (g, i) = choose|g: int, i: int|
                    #![trigger gs2[g]@[i]]
                    valid_frame(gs2, g, i) && opaque_at(gs2[g]@[i], w, h, p);
                assert(valid_frame(gs1, g, i));
                assert(same_frame(gs1[g]@[i], gs2[g]@[i]));
                assert(opaque_at(gs1[g]@[i], w, h, p));
            }
        }
        if pts1 == Set::<(int, int)>::empty() {
        } else {
            let b1 = choose|b: Bbox| is_bbox_of(b, pts1) && groups_cropped(rs1, gs1, b);
            let b2 = choose|b: Bbox| is_bbox_of(b, pts2) && groups_cropped(rs2, gs2, b);
            lemma_bbox_unique(b1, b2, pts1);
            assert forall|g: int, i: int|
                #![trigger rs1[g]@[i]]
                valid_frame(rs1, g, i) implies same_frame(rs1[g]@[i], rs2[g]@[i]) by {
                assert(valid_frame(gs1, g, i));
                assert(valid_frame(gs2, g, i));
                let r1 = rs1[g]@[i];
                let r2 = rs2[g]@[i];
                assert(is_crop_of(r1, gs1[g]@[i], b1));
                assert(is_crop_of(r2, gs2[g]@[i], b1));
                assert(same_frame(gs1[g]@[i], gs2[g]@[i]));
                assert forall|y: int, x: int|
                    0 <= y < r1.height_cells && 0 <= x < r1.width_cells implies #[trigger] r1.spec_cell(y, x)
                        == r2.spec_cell(y, x) by {
                    assert(r1.spec_cell(y, x) == gs1[g]@[i].spec_cell(b1.2 + y, b1.0 + x));
                    assert(r2.spec_cell(y, x) == gs2[g]@[i].spec_cell(b1.2 + y, b1.0 + x));
                }
                lemma_same_cells(r1, r2);
            }
            assert forall|g: int| 0 <= g < rs1.len() implies #[trigger] rs1[g]@.len() == rs2[g]@.len() by {
                assert(gs1[g]@.len() == gs2[g]@.len());
            }
        }
    }
}

proof fn lemma_extend_bbox(b: Bbox, pts: Set<(int, int)>, x: u16, y: u16)
    requires
        is_bbox_of(b, pts),
        x < 0xffff,
        y < 0xffff,
    ensures
        is_bbox_of(extend_bbox(b, x, y), pts.insert((x as int, y as int))),
{
    let q = (x as int, y as int);
    let n = pts.insert(q);
    let e = extend_bbox(b, x, y);
    assert(n.contains(q));
    assert(n != Set::<(int, int)>::empty());
    if pts == Set::<(int, int)>::empty() {
        assert forall|p: (int, int)| #[trigger] n.contains(p) implies e.0 <= p.0 <= e.1 && e.2 <= p.1
            <= e.3 by {
            assert(p == q);
        }
    } else {
        let p0 = choose|p: (int, int)| #[trigger] pts.contains(p) && p.0 == b.0;
        let p1 = choose|p: (int, int)| #[trigger] pts.contains(p) && p.0 == b.1;
        let p2 = choose|p: (int, int)| #[trigger] pts.contains(p) && p.1 == b.2;
        let p3 = choose|p: (int, int)| #[trigger] pts.contains(p) && p.1 == b.3;
        assert(n.contains(p0) && n.contains(p1) && n.contains(p2) && n.contains(p3));
    }
}

proof fn lemma_bbox_empty_iff(b: Bbox, pts: Set<(int, int)>)
    requires
        is_bbox_of(b, pts),
    ensures
        (b.0 > b.1) <==> pts == Set::<(int, int)>::empty(),
{
    if pts != Set::<(int, int)>::empty() {
        let p0 = choose|p: (int, int)| #[trigger] pts.contains(p) && p.0 == b.0;
        assert(pts.contains(p0));
    }
}

/// Grows `b` by the visible cells of `f` within the `w` x `h` window.
fn scan_frame(f: &HbFrame, w: u16, h: u16, b: Bbox, Ghost(pts): Ghost<Set<(int, int)>>) -> (r: Bbox)
    requires
        f.readable(w as int, h as int),
        is_bbox_of(b, pts),
    ensures
        is_bbox_of(r, pts.union(frame_points(*f, w as int, h as int))),
{
    let mut acc = b;
    let mut cy: u16 = 0;
    assert(pts.union(frame_points_before(*f, w as int, h as int, 0, 0)) =~= pts);
    while cy < h
        invariant
            cy <= h,
            f.readable(w as int, h as int),
            is_bbox_of(acc, pts.union(frame_points_before(*f, w as int, h as int, cy as int, 0))),
        decreases h - cy,
    {
        let mut cx: u16 = 0;
        while cx < w
            invariant
                cy < h,
                cx <= w,
                f.readable(w as int, h as int),
                is_bbox_of(
                    acc,
                    pts.union(frame_points_before(*f, w as int, h as int, cy as int, cx as int)),
                ),
            decreases w - cx,
        {
            let ghost before = pts.union(
                frame_points_before(*f, w as int, h as int, cy as int, cx as int),
            );
            let ghost after = pts.union(
                frame_points_before(*f, w as int, h as int, cy as int, cx + 1),
            );
            assert(0 <= f.index_of(cy as int, cx as int) < f.cells@.len());
            let cell = f.cell_at(cy, cx);
            if !cell.transparent {
                proof {
                    lemma_extend_bbox(acc, before, cx, cy);
                    assert(after =~= before.insert((cx as int, cy as int)));
                }
                if cx < acc.0 {
                    acc.0 = cx;
                }
                if cx > acc.1 {
                    acc.1 = cx;
                }
                if cy < acc.2 {
                    acc.2 = cy;
                }
                if cy > acc.3 {
                    acc.3 = cy;
                }
            } else {
                assert(after =~= before);
            }
            cx = cx + 1;
        }
        assert(pts.union(frame_points_before(*f, w as int, h as int, cy as int, w as int))
            =~= pts.union(frame_points_before(*f, w as int, h as int, cy + 1, 0)));
        cy = cy + 1;
    }
    assert(pts.union(frame_points_before(*f, w as int, h as int, h as int, 0)) =~= pts.union(
        frame_points(*f, w as int, h as int),
    ));
    acc
}

/// The part of `f` inside box `b`.
fn crop_frame(f: &HbFrame, b: Bbox) -> (r: HbFrame)
    requires
        b.0 <= b.1 < 0xffff,
        b.2 <= b.3 < 0xffff,
        f.readable(b.1 + 1, b.3 + 1),
    ensures
        is_crop_of(r, *f, b),
{
    let new_w: u16 = b.1 - b.0 + 1;
    let new_h: u16 = b.3 - b.2 + 1;
    let mut cells: Vec<HbCell> = Vec::new();
    let mut ry: u16 = 0;
    while ry < new_h
        invariant
            new_w == b.1 - b.0 + 1,
            new_h == b.3 - b.2 + 1,
            b.0 <= b.1 < 0xffff,
            b.2 <= b.3 < 0xffff,
            f.readable(b.1 + 1, b.3 + 1),
            ry <= new_h,
            cells@.len() == ry * new_w,
            forall|y: int, x: int|
                0 <= y < ry && 0 <= x < new_w ==> #[trigger] cells@[y * new_w + x] == f.spec_cell(
                    b.2 + y,
                    b.0 + x,
                ),
        decreases new_h - ry,
    {
        let mut rx: u16 = 0;
        while rx < new_w
            invariant
                new_w == b.1 - b.0 + 1,
                new_h == b.3 - b.2 + 1,
                b.0 <= b.1 < 0xffff,
                b.2 <= b.3 < 0xffff,
                f.readable(b.1 + 1, b.3 + 1),
                ry < new_h,
                rx <= new_w,
                cells@.len() == ry * new_w + rx,
                forall|y: int, x: int|
                    0 <= y < ry && 0 <= x < new_w ==> #[trigger] cells@[y * new_w + x]
                        == f.spec_cell(b.2 + y, b.0 + x),
                forall|x: int|
                    0 <= x < rx ==> #[trigger] cells@[ry * new_w + x] == f.spec_cell(
                        b.2 + ry,
                        b.0 + x,
                    ),
            decreases new_w - rx,
        {
            assert(0 <= f.index_of(b.2 + ry, b.0 + rx) < f.cells@.len());
            let c = f.cell_at(b.2 + ry, b.0 + rx);
            let ghost old_cells = cells@;
            cells.push(c);
            proof {
                assert forall|y: int, x: int|
                    0 <= y < ry && 0 <= x < new_w implies #[trigger] cells@[y * new_w + x]
                    == f.spec_cell(b.2 + y, b.0 + x) by {
                    crate::arith::lemma_grid_index_in_bounds(y, x, new_w as int, ry as int);
                    assert(cells@[y * new_w + x] == old_cells[y * new_w + x]);
                }
                assert forall|x: int| 0 <= x < rx + 1 implies #[trigger] cells@[ry * new_w + x]
                    == f.spec_cell(b.2 + ry, b.0 + x) by {
                    if x < rx {
                        assert(cells@[ry * new_w + x] == old_cells[ry * new_w + x]);
                    }
                }
            }
            rx = rx + 1;
        }
        proof {
            crate::arith::lemma_next_row(ry as int, new_w as int);
        }
        ry = ry + 1;
    }
    assert(new_h * new_w == new_w * new_h) by (nonlinear_arith);
    let r = HbFrame { width_cells: new_w, height_cells: new_h, cells };
    assert forall|y: int, x: int|
        0 <= y < r.height_cells && 0 <= x < r.width_cells implies #[trigger] r.spec_cell(y, x)
        == f.spec_cell(b.2 + y, b.0 + x) by {
        assert(r.spec_cell(y, x) == cells@[y * new_w + x]);
    }
    r
}

/// Trims the transparent padding around all frames of all groups to one shared
/// bounding box, so that every frame keeps the same size. The box is measured
/// in the window of the first frame's size.
pub fn crop_frames_to_union(groups: Vec<Vec<HbFrame>>) -> (res: Vec<Vec<HbFrame>>)
    requires
        groups_readable(groups@),
    ensures
        crop_outcome(groups@, res@),
{
    let ghost gs = groups@;
    // Find the first group that holds a frame.
    let mut g0: usize = 0;
    while g0 < groups.len() && groups[g0].len() == 0
        invariant
            g0 <= groups@.len(),
            forall|j: int| 0 <= j < g0 ==> #[trigger] groups@[j]@.len() == 0,
        decreases groups@.len() - g0,
    {
        g0 = g0 + 1;
    }
    if g0 == groups.len() {
        assert(all_empty(gs));
        return groups;
    }
    assert(is_first_nonempty(gs, g0 as int));
    proof {
        let gc = choose|g: int| is_first_nonempty(gs, g);
        assert(gc == g0);
    }
    assert(!all_empty(gs)) by {
        assert(gs[g0 as int]@.len() > 0);
    }
    let w = groups[g0][0].width_cells;
    let h = groups[g0][0].height_cells;
    assert(first_frame(gs) == gs[g0 as int]@[0]);
    let ghost gw = w as int;
    let ghost gh = h as int;
    let mut acc: Bbox = (0xffff, 0, 0xffff, 0);
    let mut g: usize = 0;
    assert(points_before(gs, gw, gh, 0, 0) =~= Set::<(int, int)>::empty());
    while g < groups.len()
        invariant
            gs == groups@,
            !all_empty(gs),
            gw == first_frame(gs).width_cells,
            gh == first_frame(gs).height_cells,
            w == gw,
            h == gh,
            groups_readable(gs),
            g <= gs.len(),
            is_bbox_of(acc, points_before(gs, gw, gh, g as int, 0)),
        decreases gs.len() - g,
    {
        let mut i: usize = 0;
        while i < groups[g].len()
            invariant
                gs == groups@,
                !all_empty(gs),
                gw == first_frame(gs).width_cells,
                gh == first_frame(gs).height_cells,
                w == gw,
                h == gh,
                groups_readable(gs),
                g < gs.len(),
                i <= gs[g as int]@.len(),
                is_bbox_of(acc, points_before(gs, gw, gh, g as int, i as int)),
            decreases gs[g as int]@.len() - i,
        {
            assert(valid_frame(gs, g as int, i as int));
            let ghost f = gs[g as int]@[i as int];
            acc = scan_frame(&groups[g][i], w, h, acc, Ghost(points_before(gs, gw, gh, g as int, i as int)));
            proof {
                let lhs = points_before(gs, gw, gh, g as int, i + 1);
                let rhs = points_before(gs, gw, gh, g as int, i as int).union(frame_points(f, gw, gh));
                assert forall|p: (int, int)| lhs.contains(p) <==> rhs.contains(p) by {
                    if lhs.contains(p) {
                        let (g1, i1) = choose|g1: int, i1: int|
                            #![trigger gs[g1]@[i1]]
                            valid_frame(gs, g1, i1) && (g1 < g || (g1 == g && i1 < i + 1))
                                && opaque_at(gs[g1]@[i1], gw, gh, p);
                        if g1 == g && i1 == i {
                            assert(frame_points(f, gw, gh).contains(p));
                        } else {
                            assert(points_before(gs, gw, gh, g as int, i as int).contains(p));
                        }
                    }
                    if rhs.contains(p) {
                        if frame_points(f, gw, gh).contains(p) {
                            assert(valid_frame(gs, g as int, i as int) && opaque_at(gs[g as int]@[i as int], gw, gh, p));
                        } else {
                            let (g1, i1) = choose|g1: int, i1: int|
                                #![trigger gs[g1]@[i1]]
                                valid_frame(gs, g1, i1) && (g1 < g || (g1 == g && i1 < i))
                                    && opaque_at(gs[g1]@[i1], gw, gh, p);
                            assert(valid_frame(gs, g1, i1) && opaque_at(gs[g1]@[i1], gw, gh, p));
                        }
                    }
                }
                assert(lhs =~= rhs);
            }
            i = i + 1;
        }
        proof {
            let lhs = points_before(gs, gw, gh, g + 1, 0);
            let rhs = points_before(gs, gw, gh, g as int, gs[g as int]@.len() as int);
            assert forall|p: (int, int)| lhs.contains(p) <==> rhs.contains(p) by {
                if lhs.contains(p) {
                    let (g1, i1) = choose|g1: int, i1: int|
                        #![trigger gs[g1]@[i1]]
                        valid_frame(gs, g1, i1) && (g1 < g + 1 || (g1 == g + 1 && i1 < 0))
                            && opaque_at(gs[g1]@[i1], gw, gh, p);
                    assert(valid_frame(gs, g1, i1) && opaque_at(gs[g1]@[i1], gw, gh, p));
                }
                if rhs.contains(p) {
                    let (g1, i1) = choose|g1: int, i1: int|
                        #![trigger gs[g1]@[i1]]
                        valid_frame(gs, g1, i1) && (g1 < g || (g1 == g && i1 < gs[g as int]@.len()))
                            && opaque_at(gs[g1]@[i1], gw, gh, p);
                    assert(valid_frame(gs, g1, i1) && opaque_at(gs[g1]@[i1], gw, gh, p));
                }
            }
            assert(lhs =~= rhs);
        }
        g = g + 1;
    }
    let ghost pts = union_points(gs, gw, gh);
    proof {
        let pb = points_before(gs, gw, gh, gs.len() as int, 0);
        assert forall|p: (int, int)| pb.contains(p) <==> pts.contains(p) by {
            if pb.contains(p) {
                let (g1, i1) = choose|g1: int, i1: int|
                    #![trigger gs[g1]@[i1]]
                    valid_frame(gs, g1, i1) && (g1 < gs.len() || (g1 == gs.len() && i1 < 0))
                        && opaque_at(gs[g1]@[i1], gw, gh, p);
                assert(valid_frame(gs, g1, i1) && opaque_at(gs[g1]@[i1], gw, gh, p));
            }
            if pts.contains(p) {
                let (g1, i1) = choose|g1: int, i1: int|
                    #![trigger gs[g1]@[i1]]
                    valid_frame(gs, g1, i1) && opaque_at(gs[g1]@[i1], gw, gh, p);
                assert(valid_frame(gs, g1, i1) && opaque_at(gs[g1]@[i1], gw, gh, p));
            }
        }
        assert(pb =~= pts);
        lemma_bbox_empty_iff(acc, pts);
    }
    if acc.0 > acc.1 {
        return groups;
    }
    proof {
        // The box lies inside the window, so every frame can be read within it.
        let p1 = choose|p: (int, int)| #[trigger] pts.contains(p) && p.0 == acc.1;
        let p3 = choose|p: (int, int)| #[trigger] pts.contains(p) && p.1 == acc.3;
        let p0 = choose|p: (int, int)| #[trigger] pts.contains(p) && p.0 == acc.0;
        assert(pts.contains(p1) && pts.contains(p3) && pts.contains(p0));
        let p2 = choose|p: (int, int)| #[trigger] pts.contains(p) && p.1 == acc.2;
        assert(pts.contains(p2));
    }
    assert(acc.1 < w && acc.3 < h && acc.2 <= acc.3);
    let mut res: Vec<Vec<HbFrame>> = Vec::new();
    let mut g: usize = 0;
    while g < groups.len()
        invariant
            gs == groups@,
            !all_empty(gs),
            gw == first_frame(gs).width_cells,
            gh == first_frame(gs).height_cells,
            groups_readable(gs),
            acc.0 <= acc.1 < gw,
            acc.2 <= acc.3 < gh,
            gw <= 0xffff,
            gh <= 0xffff,
            g <= gs.len(),
            res@.len() == g,
            forall|k: int| 0 <= k < g ==> (#[trigger] res@[k])@.len() == gs[k]@.len(),
            forall|k: int, i: int|
                #![trigger res@[k]@[i]]
                0 <= k < g && 0 <= i < gs[k]@.len() ==> is_crop_of(res@[k]@[i], gs[k]@[i], acc),
        decreases gs.len() - g,
    {
        let mut out: Vec<HbFrame> = Vec::new();
        let mut i: usize = 0;
        while i < groups[g].len()
            invariant
                gs == groups@,
                !all_empty(gs),
                gw == first_frame(gs).width_cells,
                gh == first_frame(gs).height_cells,
                groups_readable(gs),
                acc.0 <= acc.1 < gw,
                acc.2 <= acc.3 < gh,
                gw <= 0xffff,
                gh <= 0xffff,
                g < gs.len(),
                i <= gs[g as int]@.len(),
                out@.len() == i,
                forall|j: int| 0 <= j < i ==> is_crop_of(#[trigger] out@[j], gs[g as int]@[j], acc),
            decreases gs[g as int]@.len() - i,
        {
            assert(valid_frame(gs, g as int, i as int));
            let ghost f = gs[g as int]@[i as int];
            assert(f.readable(gw, gh));
            assert(f.readable(acc.1 + 1, acc.3 + 1));
            let c = crop_frame(&groups[g][i], acc);
            out.push(c);
            i = i + 1;
        }
        res.push(out);
        g = g + 1;
    }
    assert(is_bbox_of(acc, pts) && groups_cropped(res@, gs, acc));
    res
}

// ---------------------------------------------------------------------------
// Writing a frame as terminal escape sequences
// ---------------------------------------------------------------------------

/// Moves the cursor to the zero-based cell (`r`, `c`).
pub open spec fn cursor_seq(r: int, c: int) -> Seq<char> {
    "\x1b["@ + decimal((r + 1) as nat) + ";"@ + decimal((c + 1) as nat) + "H"@
}

/// Selects the foreground colour (or the default one).
pub open spec fn fg_seq(fg: Option<(u8, u8, u8)>) -> Seq<char> {
    match fg {
        Some((r, g, b)) => "\x1b[38;2;"@ + decimal(r as nat) + ";"@ + decimal(g as nat) + ";"@
            + decimal(b as nat) + "m"@,
        None => "\x1b[39m"@,
    }
}

/// Selects the background colour (or the default one).
pub open spec fn bg_seq(bg: Option<(u8, u8, u8)>) -> Seq<char> {
    match bg {
        Some((r, g, b)) => "\x1b[48;2;"@ + decimal(r as nat) + ";"@ + decimal(g as nat) + ";"@
            + decimal(b as nat) + "m"@,
        None => "\x1b[49m"@,
    }
}

/// What the writer remembers between cells: the colours last selected and the
/// column the cursor is known to stand at (if it is known).
pub type PenState = (Option<(u8, u8, u8)>, Option<(u8, u8, u8)>, Option<int>);

/// Where frame cell (`cy`, `cx`) goes on screen and whether it is drawn there.
pub open spec fn drawn_at(f: HbFrame, row: u16, col: u16, max_rows: u16, max_cols: u16, cy: int, cx: int) -> bool {
    row + cy < max_rows && col + cx < max_cols && !f.spec_cell(cy, cx).transparent
}

/// The text for frame cell (`cy`, `cx`) and the pen state after it: nothing for a
/// clipped or transparent cell (and the cursor column is forgotten); otherwise a
/// cursor move unless the cursor already stands there, colour changes where the
/// colours differ from the last selected ones, and the glyph.
pub open spec fn cell_text(
    f: HbFrame,
    row: u16,
    col: u16,
    max_rows: u16,
    max_cols: u16,
    cy: int,
    cx: int,
    st: PenState,
) -> (Seq<char>, PenState) {
    let cell = f.spec_cell(cy, cx);
    let r = row + cy;
    let c = col + cx;
    if !drawn_at(f, row, col, max_rows, max_cols, cy, cx) {
        (Seq::empty(), (st.0, st.1, None))
    } else {
        let pos = if st.2 == Some(c) { Seq::empty() } else { cursor_seq(r, c) };
        let fgs = if cell.fg == st.0 { Seq::empty() } else { fg_seq(cell.fg) };
        let bgs = if cell.bg == st.1 { Seq::empty() } else { bg_seq(cell.bg) };
        (pos + fgs + bgs + seq![cell.ch], (cell.fg, cell.bg, Some(c + 1)))
    }
}

/// The text for the cells of `f` from (`cy`, `cx`) on, row by row; the
/// cursor column is forgotten at the start of each row.
pub open spec fn frame_text_from(
    f: HbFrame,
    row: u16,
    col: u16,
    max_rows: u16,
    max_cols: u16,
    cy: int,
    cx: int,
    st: PenState,
) -> Seq<char>
    decreases f.height_cells - cy, f.width_cells - cx,
{
    if cy >= f.height_cells || cy < 0 || cx < 0 {
        Seq::empty()
    } else if cx >= f.width_cells {
        frame_text_from(f, row, col, max_rows, max_cols, cy + 1, 0, (st.0, st.1, None))
    } else {
        let (out, next) = cell_text(f, row, col, max_rows, max_cols, cy, cx, st);
        out + frame_text_from(f, row, col, max_rows, max_cols, cy, cx + 1, next)
    }
}

/// The whole text that draws `f` with its top-left cell at (`row`, `col`) on a
/// screen of `max_rows` x `max_cols` cells.
pub open spec fn frame_text(f: HbFrame, row: u16, col: u16, max_rows: u16, max_cols: u16) -> Seq<
    char,
> {
    "\x1b[0m"@ + frame_text_from(f, row, col, max_rows, max_cols, 0, 0, (None, None, None))
}

fn same_color(a: Option<(u8, u8, u8)>, b: Option<(u8, u8, u8)>) -> (r: bool)
    ensures
        r == (a == b),
{
    match (a, b) {
        (Some(x), Some(y)) => x.0 == y.0 && x.1 == y.1 && x.2 == y.2,
        (None, None) => true,
        _ => false,
    }
}

pub(crate) fn push_cursor(buf: &mut String, r: u16, c: u16)
    requires
        r < 0xffff,
        c < 0xffff,
    ensures
        final(buf)@ == old(buf)@ + cursor_seq(r as int, c as int),
{
    buf.append("\x1b[");
    push_decimal(buf, (r + 1) as u32);
    buf.append(";");
    push_decimal(buf, (c + 1) as u32);
    buf.append("H");
}

fn push_rgb(buf: &mut String, lead: &str, rgb: (u8, u8, u8))
    ensures
        final(buf)@ == old(buf)@ + lead@ + decimal(rgb.0 as nat) + ";"@ + decimal(rgb.1 as nat)
            + ";"@ + decimal(rgb.2 as nat) + "m"@,
{
    buf.append(lead);
    push_decimal(buf, rgb.0 as u32);
    buf.append(";");
    push_decimal(buf, rgb.1 as u32);
    buf.append(";");
    push_decimal(buf, rgb.2 as u32);
    buf.append("m");
}

fn push_fg(buf: &mut String, fg: Option<(u8, u8, u8)>)
    ensures
        final(buf)@ == old(buf)@ + fg_seq(fg),
{
    match fg {
        Some(rgb) => push_rgb(buf, "\x1b[38;2;", rgb),
        None => buf.append("\x1b[39m"),
    }
}

fn push_bg(buf: &mut String, bg: Option<(u8, u8, u8)>)
    ensures
        final(buf)@ == old(buf)@ + bg_seq(bg),
{
    match bg {
        Some(rgb) => push_rgb(buf, "\x1b[48;2;", rgb),
        None => buf.append("\x1b[49m"),
    }
}

/// Appends the half-block drawing of `frame` with its top-left cell at
/// terminal cell (`row`, `col`), clipped to `max_rows` x `max_cols`. Colours
/// are reset once at the start and then only changed where they differ from
/// the last ones selected; the cursor is only moved where it does not already
/// stand at the next cell.
pub fn write_frame(buf: &mut String, frame: &HbFrame, row: u16, col: u16, max_rows: u16, max_cols: u16)
    requires
        frame.readable(frame.width_cells as int, frame.height_cells as int),
        frame.width_cells > 0 && frame.height_cells > 0 ==> row + frame.height_cells - 1 <= 0xffff
            && col + frame.width_cells - 1 <= 0xffff,
    ensures
        final(buf)@ == old(buf)@ + frame_text(*frame, row, col, max_rows, max_cols),
{
    let ghost total = old(buf)@ + frame_text(*frame, row, col, max_rows, max_cols);
    buf.append("\x1b[0m");
    let mut prev_fg: Option<(u8, u8, u8)> = None;
    let mut prev_bg: Option<(u8, u8, u8)> = None;
    let mut cy: u16 = 0;
    while cy < frame.height_cells
        invariant
            frame.readable(frame.width_cells as int, frame.height_cells as int),
            frame.width_cells > 0 && frame.height_cells > 0 ==> row + frame.height_cells - 1
                <= 0xffff && col + frame.width_cells - 1 <= 0xffff,
            cy <= frame.height_cells,
            buf@ + frame_text_from(*frame, row, col, max_rows, max_cols, cy as int, 0, (prev_fg, prev_bg, None)) == total,
        decreases frame.height_cells - cy,
    {
        let mut next_col: Option<u16> = None;
        let mut cx: u16 = 0;
        while cx < frame.width_cells
            invariant
                frame.readable(frame.width_cells as int, frame.height_cells as int),
                frame.width_cells > 0 ==> row + frame.height_cells - 1 <= 0xffff && col
                    + frame.width_cells - 1 <= 0xffff,
                cy < frame.height_cells,
                cx <= frame.width_cells,
                buf@ + frame_text_from(
                    *frame,
                    row,
                    col,
                    max_rows,
                    max_cols,
                    cy as int,
                    cx as int,
                    (prev_fg, prev_bg, match next_col { Some(n) => Some(n as int), None => None }),
                ) == total,
            decreases frame.width_cells - cx,
        {
            let ghost st: PenState = (prev_fg, prev_bg, match next_col { Some(n) => Some(n as int), None => None });
            let ghost old_buf = buf@;
            let ghost step = cell_text(*frame, row, col, max_rows, max_cols, cy as int, cx as int, st);
            assert(frame_text_from(*frame, row, col, max_rows, max_cols, cy as int, cx as int, st)
                == step.0 + frame_text_from(*frame, row, col, max_rows, max_cols, cy as int, cx + 1, step.1));
            assert(0 <= frame.index_of(cy as int, cx as int) < frame.cells@.len());
            let cell = frame.cell_at(cy, cx);
            let r = row + cy;
            let c = col + cx;
            if r >= max_rows || c >= max_cols || cell.transparent {
                next_col = None;
                assert(buf@ == old_buf + step.0);
            } else {
                let at_col = match next_col {
                    Some(n) => n == c,
                    None => false,
                };
                if !at_col {
                    push_cursor(buf, r, c);
                }
                if !same_color(cell.fg, prev_fg) {
                    push_fg(buf, cell.fg);
                }
                prev_fg = cell.fg;
                if !same_color(cell.bg, prev_bg) {
                    push_bg(buf, cell.bg);
                }
                prev_bg = cell.bg;
                push_char(buf, cell.ch);
                next_col = Some(c + 1);
                assert(buf@ =~= old_buf + step.0);
            }
            assert(step.1 == (prev_fg, prev_bg, match next_col { Some(n) => Some(n as int), None => None }));
            cx = cx + 1;
        }
        cy = cy + 1;
    }
    assert(buf@ =~= total);
}

} // verus!
