//! Loading the pet's animations from a sprite sheet: frames are cut out of
//! the (halved) sheet as half-block cell grids, and all animations are then
//! cropped to one shared bounding box so that the pet keeps one size.

use vstd::prelude::*;
use crate::half_block::{
    crop_outcome, groups_readable, pixel_at, same_frame, same_groups, spec_half_block, valid_frame, HbCell,
    HbFrame,
};
use crate::raster::{decode_rgba, decoded_rgba, resampled_rgba, resize_exact, Filter, Pixels};

verus! {

/// A sprite cell is a half-block cell.
pub type SpriteCell = HbCell;

/// A sprite frame is a half-block frame.
pub type Frame = HbFrame;

/// The size of one frame on the sheet, in source pixels.
pub const FRAME_PIXELS: u32 = 32;

/// The sheet is shrunk by this factor before frames are cut out of it.
pub const SOURCE_SCALE_DOWN: u32 = 2;

/// A sheet that could not be turned into frames.
#[derive(Debug)]
pub enum SheetError {
    /// The sheet's bytes are not an image.
    Decode,
}

/// `f` is the `w` x `h` pixel region with top-left corner (`x`, `y`) of the
/// image (`iw` x `ih` pixels, RGBA bytes `data`), as half-block cells: cell
/// (row, col) shows pixel (x + col, y + 2 row) above pixel (x + col, y + 2 row + 1),
/// transparent black outside the image.
pub open spec fn is_extracted(f: HbFrame, data: Seq<u8>, iw: u32, ih: u32, x: u32, y: u32, w: u32, h: u32) -> bool {
    &&& f.width_cells == w as u16
    &&& f.height_cells == (h / 2) as u16
    &&& f.wf()
    &&& forall|cy: int, cx: int|
        0 <= cy < f.height_cells && 0 <= cx < f.width_cells ==> #[trigger] f.spec_cell(cy, cx)
            == spec_half_block(
            pixel_at(data, iw, ih, x + cx, y + 2 * cy),
            pixel_at(data, iw, ih, x + cx, y + 2 * cy + 1),
        )
}

fn sample(img: &Pixels, x: u32, y: u32) -> (p: [u8; 4])
    requires
        img.wf(),
    ensures
        p@ == pixel_at(img.data@, img.width, img.height, x as int, y as int),
{
    if x >= img.width || y >= img.height {
        let p = [0u8, 0u8, 0u8, 0u8];
        assert(p@ =~= seq![0u8, 0u8, 0u8, 0u8]);
        return p;
    }
    proof {
        crate::raster::lemma_pixel_offset(y as int, x as int, img.width as int, img.height as int);
        assert(img.data.len() == img.data@.len());
    }
    let i = ((y as usize) * (img.width as usize) + x as usize) * 4;
    let p = [img.data[i], img.data[i + 1], img.data[i + 2], img.data[i + 3]];
    assert(p@ =~= img.data@.subrange(i as int, i + 4));
    p
}

fn half_block_for(top: [u8; 4], bot: [u8; 4]) -> (c: SpriteCell)
    ensures
        c == spec_half_block(top@, bot@),
{
    crate::half_block::half_block_for(top, bot)
}

/// Cuts the `w` x `h` pixel region with top-left corner (`x`, `y`) out of
/// `img` as half-block cells (one cell per column, two pixel rows per cell).
fn extract_frame(img: &Pixels, x: u32, y: u32, w: u32, h: u32) -> (f: Frame)
    requires
        img.wf(),
        x + (w as u16) <= u32::MAX + 1,
        y + 2 * ((h / 2) as u16) <= u32::MAX,
    ensures
        is_extracted(f, img.data@, img.width, img.height, x, y, w, h),
{
    let cell_w = w as u16;
    let cell_h = (h / 2) as u16;
    let mut cells: Vec<SpriteCell> = Vec::new();
    let mut cy: u16 = 0;
    while cy < cell_h
        invariant
            img.wf(),
            cell_w == w as u16,
            cell_h == (h / 2) as u16,
            x + cell_w <= u32::MAX + 1,
            y + 2 * cell_h <= u32::MAX,
            cy <= cell_h,
            cells@.len() == cy * cell_w,
            forall|yy: int, xx: int|
                0 <= yy < cy && 0 <= xx < cell_w ==> #[trigger] cells@[yy * cell_w + xx]
                    == spec_half_block(
                    pixel_at(img.data@, img.width, img.height, x + xx, y + 2 * yy),
                    pixel_at(img.data@, img.width, img.height, x + xx, y + 2 * yy + 1),
                ),
        decreases cell_h - cy,
    {
        let mut cx: u16 = 0;
        while cx < cell_w
            invariant
                img.wf(),
                cell_w == w as u16,
                cell_h == (h / 2) as u16,
                x + cell_w <= u32::MAX + 1,
                y + 2 * cell_h <= u32::MAX,
                cy < cell_h,
                cx <= cell_w,
                cells@.len() == cy * cell_w + cx,
                forall|yy: int, xx: int|
                    0 <= yy < cy && 0 <= xx < cell_w ==> #[trigger] cells@[yy * cell_w + xx]
                        == spec_half_block(
                        pixel_at(img.data@, img.width, img.height, x + xx, y + 2 * yy),
                        pixel_at(img.data@, img.width, img.height, x + xx, y + 2 * yy + 1),
                    ),
                forall|xx: int|
                    0 <= xx < cx ==> #[trigger] cells@[cy * cell_w + xx] == spec_half_block(
                        pixel_at(img.data@, img.width, img.height, x + xx, y + 2 * cy),
                        pixel_at(img.data@, img.width, img.height, x + xx, y + 2 * cy + 1),
                    ),
            decreases cell_w - cx,
        {
            let px = x + cx as u32;
            let py = y + (cy as u32) * 2;
            let top = sample(img, px, py);
            let bot = sample(img, px, py + 1);
            let c = half_block_for(top, bot);
            let ghost old_cells = cells@;
            cells.push(c);
            proof {
                assert forall|yy: int, xx: int|
                    0 <= yy < cy && 0 <= xx < cell_w implies #[trigger] cells@[yy * cell_w + xx]
                    == spec_half_block(
                    pixel_at(img.data@, img.width, img.height, x + xx, y + 2 * yy),
                    pixel_at(img.data@, img.width, img.height, x + xx, y + 2 * yy + 1),
                ) by {
                    crate::arith::lemma_grid_index_in_bounds(yy, xx, cell_w as int, cy as int);
                    assert(cells@[yy * cell_w + xx] == old_cells[yy * cell_w + xx]);
                }
                assert forall|xx: int| 0 <= xx < cx + 1 implies #[trigger] cells@[cy * cell_w + xx]
                    == spec_half_block(
                    pixel_at(img.data@, img.width, img.height, x + xx, y + 2 * cy),
                    pixel_at(img.data@, img.width, img.height, x + xx, y + 2 * cy + 1),
                ) by {
                    if xx < cx {
                        assert(cells@[cy * cell_w + xx] == old_cells[cy * cell_w + xx]);
                    }
                }
            }
            cx = cx + 1;
        }
        proof {
            crate::arith::lemma_next_row(cy as int, cell_w as int);
        }
        cy = cy + 1;
    }
    assert(cell_h * cell_w == cell_w * cell_h) by (nonlinear_arith);
    let f = Frame { width_cells: cell_w, height_cells: cell_h, cells };
    assert forall|yy: int, xx: int|
        0 <= yy < f.height_cells && 0 <= xx < f.width_cells implies #[trigger] f.spec_cell(yy, xx)
        == spec_half_block(
        pixel_at(img.data@, img.width, img.height, x + xx, y + 2 * yy),
        pixel_at(img.data@, img.width, img.height, x + xx, y + 2 * yy + 1),
    ) by {
        assert(f.spec_cell(yy, xx) == cells@[yy * cell_w + xx]);
    }
    f
}

/// The whole image as half-block cells.
pub fn frame_from_image(img: &Pixels) -> (f: Frame)
    requires
        img.wf(),
        (img.height / 2) as u16 * 2 <= u32::MAX,
    ensures
        is_extracted(f, img.data@, img.width, img.height, 0, 0, img.width, img.height),
{
    extract_frame(img, 0, 0, img.width, img.height)
}

/// Raw RGBA bytes (four per pixel, row by row) as half-block cells.
pub fn frame_from_rgba_bytes(data: &[u8], width: u32, height: u32) -> (f: Frame)
    requires
        crate::half_block::rgba_readable(data@, width, height),
    ensures
        crate::half_block::is_rgba_frame(f, data@, width, height),
{
    crate::half_block::frame_from_rgba_bytes(data, width, height)
}

/// Trims transparent padding around the frames to the bounding box of the
/// visible cells of all of them, so that every frame keeps the same size.
pub fn crop_frames_to_union(frames: Vec<Frame>) -> (res: Vec<Frame>)
    requires
        groups_readable(seq![frames]),
    ensures
        crop_outcome(seq![frames], seq![res]),
{
    let mut groups: Vec<Vec<Frame>> = Vec::new();
    groups.push(frames);
    assert(groups@ =~= seq![frames]);
    let mut res = crop_groups_to_global_union(groups);
    proof {
        crate::half_block::lemma_crop_outcome_shape(seq![frames], res@);
    }
    let r = res.pop().unwrap();
    assert(seq![r] =~= res@.push(r));
    r
}

/// Crops all groups to the bounding box of the visible cells of all their frames.
fn crop_groups_to_global_union(groups: Vec<Vec<Frame>>) -> (res: Vec<Vec<Frame>>)
    requires
        groups_readable(groups@),
    ensures
        crop_outcome(groups@, res@),
{
    crate::half_block::crop_frames_to_union(groups)
}

/// The frames cut out of an image of `iw` x `ih` pixels (RGBA bytes `data`),
/// each `size` x `size` pixels at the corner `coords` divided by `div`, in
/// the shape of `coords`.
pub open spec fn frames_cut(
    pre: Seq<Vec<HbFrame>>,
    data: Seq<u8>,
    iw: u32,
    ih: u32,
    coords: Seq<Seq<(u32, u32)>>,
    div: u32,
    size: u32,
) -> bool {
    &&& pre.len() == coords.len()
    &&& forall|g: int| 0 <= g < coords.len() ==> (#[trigger] pre[g])@.len() == coords[g].len()
    &&& forall|g: int, i: int|
        #![trigger pre[g]@[i]]
        0 <= g < coords.len() && 0 <= i < coords[g].len() ==> is_extracted(
            pre[g]@[i],
            data,
            iw,
            ih,
            coords[g][i].0 / div,
            coords[g][i].1 / div,
            size,
            size,
        )
}

/// The frames cut from one image at the same corners are the same.
pub proof fn lemma_frames_cut_unique(
    pre1: Seq<Vec<HbFrame>>,
    pre2: Seq<Vec<HbFrame>>,
    data: Seq<u8>,
    iw: u32,
    ih: u32,
    coords: Seq<Seq<(u32, u32)>>,
    div: u32,
    size: u32,
)
    requires
        frames_cut(pre1, data, iw, ih, coords, div, size),
        frames_cut(pre2, data, iw, ih, coords, div, size),
    ensures
        same_groups(pre1, pre2),
{
    assert forall|g: int| 0 <= g < pre1.len() implies (#[trigger] pre1[g])@.len() == pre2[g]@.len() by {
        assert(pre1[g]@.len() == coords[g].len());
    }
    assert forall|g: int, i: int|
        #![trigger pre1[g]@[i]]
        valid_frame(pre1, g, i) implies same_frame(pre1[g]@[i], pre2[g]@[i]) by {
        assert(pre1[g]@.len() == coords[g].len());
        let a = pre1[g]@[i];
        let b = pre2[g]@[i];
        assert(is_extracted(a, data, iw, ih, coords[g][i].0 / div, coords[g][i].1 / div, size, size));
        assert(is_extracted(b, data, iw, ih, coords[g][i].0 / div, coords[g][i].1 / div, size, size));
        crate::half_block::lemma_same_cells(a, b);
    }
}

/// The frames loaded from sheet image `bytes` at the source-pixel corners
/// `coords`: the sheet is halved (Lanczos3 resampling), each frame is the
/// halved frame region at the halved corner, and all groups are then cropped
/// to one shared bounding box.
pub open spec fn sheet_frames(bytes: Seq<u8>, coords: Seq<Seq<(u32, u32)>>, res: Seq<Vec<HbFrame>>) -> bool {
    decoded_rgba(bytes) matches Some((iw, ih, data)) && {
        let sw = (iw / SOURCE_SCALE_DOWN) as u32;
        let sh = (ih / SOURCE_SCALE_DOWN) as u32;
        let scaled = resampled_rgba(iw, ih, data, sw, sh, Filter::Lanczos3);
        exists|pre: Seq<Vec<HbFrame>>|
            frames_cut(pre, scaled, sw, sh, coords, SOURCE_SCALE_DOWN, (FRAME_PIXELS / SOURCE_SCALE_DOWN) as u32)
                && crop_outcome(pre, res)
    }
}

/// Loads several animations from the sprite sheet image `sheet` and crops
/// them all to one shared bounding box, so that every frame of every
/// animation has the same size. `coord_groups` gives, per animation, the
/// top-left source-pixel corner of each frame.
pub fn load_animation_groups(sheet: &[u8], coord_groups: &Vec<Vec<(u32, u32)>>) -> (r: Result<Vec<Vec<Frame>>, SheetError>)
    ensures
        match r {
            Ok(groups) => sheet_frames(sheet@, coord_groups.deep_view(), groups@),
            Err(_) => decoded_rgba(sheet@) is None,
        },
{
    let img = match decode_rgba(sheet) {
        Ok(p) => p,
        Err(_) => return Err(SheetError::Decode),
    };
    let img = resize_exact(&img, img.width / SOURCE_SCALE_DOWN, img.height / SOURCE_SCALE_DOWN, Filter::Lanczos3);
    let frame_pixels = FRAME_PIXELS / SOURCE_SCALE_DOWN;
    let ghost cs = coord_groups.deep_view();
    let mut groups: Vec<Vec<Frame>> = Vec::new();
    let mut g: usize = 0;
    while g < coord_groups.len()
        invariant
            img.wf(),
            frame_pixels == 16,
            cs == coord_groups.deep_view(),
            g <= cs.len(),
            groups@.len() == g,
            forall|k: int| 0 <= k < g ==> (#[trigger] groups@[k])@.len() == cs[k].len(),
            forall|k: int, i: int|
                #![trigger groups@[k]@[i]]
                0 <= k < g && 0 <= i < cs[k].len() ==> is_extracted(
                    groups@[k]@[i],
                    img.data@,
                    img.width,
                    img.height,
                    cs[k][i].0 / SOURCE_SCALE_DOWN,
                    cs[k][i].1 / SOURCE_SCALE_DOWN,
                    16,
                    16,
                ),
        decreases cs.len() - g,
    {
        let coords = &coord_groups[g];
        let mut group: Vec<Frame> = Vec::new();
        let mut i: usize = 0;
        while i < coords.len()
            invariant
                img.wf(),
                frame_pixels == 16,
                cs == coord_groups.deep_view(),
                g < cs.len(),
                coords == coord_groups@[g as int],
                i <= coords@.len(),
                group@.len() == i,
                forall|j: int|
                    0 <= j < i ==> is_extracted(
                        #[trigger] group@[j],
                        img.data@,
                        img.width,
                        img.height,
                        cs[g as int][j].0 / SOURCE_SCALE_DOWN,
                        cs[g as int][j].1 / SOURCE_SCALE_DOWN,
                        16,
                        16,
                    ),
            decreases coords@.len() - i,
        {
            let (x, y) = coords[i];
            assert(cs[g as int][i as int] == (x, y));
            let f = extract_frame(&img, x / SOURCE_SCALE_DOWN, y / SOURCE_SCALE_DOWN, frame_pixels, frame_pixels);
            group.push(f);
            i = i + 1;
        }
        groups.push(group);
        g = g + 1;
    }
    let ghost pre = groups@;
    proof {
        assert(frames_cut(pre, img.data@, img.width, img.height, cs, SOURCE_SCALE_DOWN, 16));
        crate::half_block::lemma_uniform_readable(pre, 16, 8);
    }
    let res = crop_groups_to_global_union(groups);
    Ok(res)
}

/// Loads one animation from the sprite sheet image `sheet`, cropped to the
/// bounding box of its visible cells.
pub fn load_frames(sheet: &[u8], frame_coords: &Vec<(u32, u32)>) -> (r: Result<Vec<Frame>, SheetError>)
    ensures
        match r {
            Ok(frames) => sheet_frames(sheet@, seq![frame_coords@], seq![frames]),
            Err(_) => decoded_rgba(sheet@) is None,
        },
{
    let mut copy: Vec<(u32, u32)> = Vec::new();
    let mut i: usize = 0;
    while i < frame_coords.len()
        invariant
            i <= frame_coords@.len(),
            copy@ == frame_coords@.subrange(0, i as int),
        decreases frame_coords@.len() - i,
    {
        copy.push(frame_coords[i]);
        assert(copy@ =~= frame_coords@.subrange(0, i + 1));
        i = i + 1;
    }
    assert(copy@ =~= frame_coords@);
    let mut coord_groups: Vec<Vec<(u32, u32)>> = Vec::new();
    coord_groups.push(copy);
    assert(coord_groups.deep_view()[0] =~= frame_coords@);
    assert(coord_groups.deep_view() =~= seq![frame_coords@]);
    let mut groups = load_animation_groups(sheet, &coord_groups)?;
    proof {
        let cs = seq![frame_coords@];
        let (iw, ih, data) = decoded_rgba(sheet@).unwrap();
        let sw = (iw / SOURCE_SCALE_DOWN) as u32;
        let sh = (ih / SOURCE_SCALE_DOWN) as u32;
        let scaled = resampled_rgba(iw, ih, data, sw, sh, Filter::Lanczos3);
        let pre = choose|pre: Seq<Vec<HbFrame>>|
            frames_cut(pre, scaled, sw, sh, cs, SOURCE_SCALE_DOWN, (FRAME_PIXELS / SOURCE_SCALE_DOWN) as u32)
                && crop_outcome(pre, groups@);
        crate::half_block::lemma_crop_outcome_shape(pre, groups@);
    }
    let ghost gv = groups@;
    let frames = groups.pop().unwrap();
    assert(gv =~= seq![frames]);
    Ok(frames)
}

} // verus!
