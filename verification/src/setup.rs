//! Starting up: choosing the renderer from what the terminal tells about
//! itself, choosing the cat, and building the twelve animations from the
//! cat's sprite sheet for the chosen renderer.

use vstd::prelude::*;
use crate::half_block::{crop_outcome, is_rgba_frame, HbFrame};
use crate::pet::{Anim, ANIM_COUNT};
use crate::raster::{crop_data, crop_window, crop_imm, decode_rgba, decoded_rgba, resampled_rgba, resize_exact, Filter, Pixels};
use crate::sixel::{encode_rgba, sixel_text};
use crate::text::{lowercased, occurs_at, str_contains, str_equals, to_lowercase};

verus! {

/// How the pet is drawn.
#[derive(Clone, Copy, PartialEq, Eq, Structural, Debug)]
pub enum Renderer {
    /// Sixel graphics: sharp pixel art.
    Sixel,
    /// Upper/lower half-block characters in true colour: works everywhere.
    HalfBlock,
}

/// The renderer a user forces by name (compared in lower case).
pub open spec fn forced_renderer(v: Seq<char>) -> Option<Renderer> {
    let l = lowercased(v);
    if l == "sixel"@ {
        Some(Renderer::Sixel)
    } else if l == "halfblock"@ || l == "half_block"@ || l == "half-block"@ || l == "fallback"@ {
        Some(Renderer::HalfBlock)
    } else {
        None
    }
}

/// Terminal programs known to show sixel graphics.
pub open spec fn sixel_term_program(p: Seq<char>) -> bool {
    p == "WezTerm"@ || p == "iTerm.app"@ || p == "ghostty"@ || p == "Konsole"@ || p == "mlterm"@
}

/// `needle` occurs in `hay`.
pub open spec fn contains(hay: Seq<char>, needle: Seq<char>) -> bool {
    exists|i: int| occurs_at(hay, needle, i)
}

/// Terminal types known to show sixel graphics. (Kitty has its own graphics
/// protocol instead, so it gets the half-block fallback.)
pub open spec fn sixel_term(t: Seq<char>) -> bool {
    contains(t, "foot"@) || contains(t, "contour"@) || contains(t, "ghostty"@) || contains(t, "mlterm"@)
}

/// The renderer for a terminal: the one forced by name if it is one of the
/// known names; else sixel inside Windows Terminal, in a terminal program
/// known for sixel, or with a terminal type known for sixel; else half-block.
pub open spec fn spec_renderer(forced: Option<Seq<char>>, wt_session: bool, term_program: Option<Seq<char>>, term: Option<Seq<char>>) -> Renderer {
    if forced is Some && forced_renderer(forced.unwrap()) is Some {
        forced_renderer(forced.unwrap()).unwrap()
    } else if wt_session {
        Renderer::Sixel
    } else if term_program is Some && sixel_term_program(term_program.unwrap()) {
        Renderer::Sixel
    } else if term is Some && sixel_term(term.unwrap()) {
        Renderer::Sixel
    } else {
        Renderer::HalfBlock
    }
}

pub open spec fn opt_view(s: Option<&str>) -> Option<Seq<char>> {
    match s {
        Some(v) => Some(v@),
        None => None,
    }
}

/// Picks the renderer from the renderer the user forces (if any), whether
/// the terminal is Windows Terminal, the terminal program's name and the
/// terminal type.
pub fn detect_renderer(forced: Option<&str>, wt_session: bool, term_program: Option<&str>, term: Option<&str>) -> (r: Renderer)
    ensures
        r == spec_renderer(opt_view(forced), wt_session, opt_view(term_program), opt_view(term)),
{
    if let Some(f) = forced {
        let l = to_lowercase(f);
        let ls = l.as_str();
        if str_equals(ls, "sixel") {
            return Renderer::Sixel;
        }
        if str_equals(ls, "halfblock") || str_equals(ls, "half_block") || str_equals(ls, "half-block")
            || str_equals(ls, "fallback") {
            return Renderer::HalfBlock;
        }
    }
    if wt_session {
        return Renderer::Sixel;
    }
    if let Some(tp) = term_program {
        if str_equals(tp, "WezTerm") || str_equals(tp, "iTerm.app") || str_equals(tp, "ghostty")
            || str_equals(tp, "Konsole") || str_equals(tp, "mlterm") {
            return Renderer::Sixel;
        }
    }
    if let Some(t) = term {
        if str_contains(t, "foot") || str_contains(t, "contour") || str_contains(t, "ghostty")
            || str_contains(t, "mlterm") {
            return Renderer::Sixel;
        }
    }
    Renderer::HalfBlock
}

/// The cats.
#[derive(Clone, Copy, PartialEq, Eq, Structural, Debug)]
pub enum Sheet {
    Gray,
    Ginger,
    White,
}

/// The cat a user asks for by name.
pub open spec fn named_sheet(c: Seq<char>) -> Option<Sheet> {
    if c == "gray"@ || c == "grey"@ {
        Some(Sheet::Gray)
    } else if c == "ginger"@ || c == "orange"@ || c == "tabby"@ {
        Some(Sheet::Ginger)
    } else if c == "white"@ {
        Some(Sheet::White)
    } else {
        None
    }
}

impl Sheet {
    /// The cat's name.
    pub fn name(&self) -> (s: &'static str)
        ensures
            s@ == match self {
                Sheet::Gray => "gray"@,
                Sheet::Ginger => "ginger"@,
                Sheet::White => "white"@,
            },
    {
        match self {
            Sheet::Gray => "gray",
            Sheet::Ginger => "ginger",
            Sheet::White => "white",
        }
    }
}

/// The cat asked for by `choice`, if it names one.
pub fn sheet_for_choice(choice: Option<&str>) -> (s: Option<Sheet>)
    ensures
        s == match choice {
            Some(c) => named_sheet(c@),
            None => None,
        },
{
    match choice {
        Some(c) => {
            if str_equals(c, "gray") || str_equals(c, "grey") {
                Some(Sheet::Gray)
            } else if str_equals(c, "ginger") || str_equals(c, "orange") || str_equals(c, "tabby") {
                Some(Sheet::Ginger)
            } else if str_equals(c, "white") {
                Some(Sheet::White)
            } else {
                None
            }
        },
        None => None,
    }
}

/// The cat asked for by `choice`, or a cat picked at random.
pub fn pick_sheet(choice: Option<&str>) -> (s: Sheet)
    ensures
        (choice matches Some(c) && named_sheet(c@) is Some) ==> s == named_sheet(choice.unwrap()@).unwrap(),
{
    match sheet_for_choice(choice) {
        Some(s) => s,
        None => {
            let mut rng = crate::chance::thread_rng();
            let i = crate::chance::gen_range(&mut rng, 0, 3);
            if i == 0 {
                Sheet::Gray
            } else if i == 1 {
                Sheet::Ginger
            } else {
                Sheet::White
            }
        },
    }
}

// ---------------------------------------------------------------------------
// The sheet layout and the animations built from it
// ---------------------------------------------------------------------------

/// The size of a frame on the sheet, in pixels.
pub const SOURCE_FRAME_PX: u32 = 32;

/// Sixel frames are scaled up to this size before encoding.
pub const SIXEL_TARGET_PX: u32 = 64;

/// Half-block frames are scaled down to this size.
pub const HB_TARGET_PX: u32 = 16;

/// The pixel size of a terminal cell assumed for sixel images.
pub const CELL_PIXEL_W: u32 = 9;
pub const CELL_PIXEL_H: u32 = 18;

/// The sheet row (top pixel) of animation `a`; its frames stand side by side.
pub open spec fn anim_row(a: int) -> u32 {
    if a == 0 { 1152 }
    else if a == 1 { 192 }
    else if a == 2 { 224 }
    else if a == 3 { 160 }
    else if a == 4 { 128 }
    else if a == 5 { 512 }
    else if a == 6 { 1024 }
    else if a == 7 { 384 }
    else if a == 8 { 448 }
    else if a == 9 { 576 }
    else if a == 10 { 1216 }
    else { 1280 }
}

/// The number of frames of animation `a`.
pub open spec fn anim_frames(a: int) -> u32 {
    if a == 0 || a == 1 || a == 2 || a == 6 || a == 11 { 8 }
    else if a == 3 || a == 4 { 4 }
    else if a == 10 { 7 }
    else { 1 }
}

/// How long each frame of animation `a` is shown: idle poses 250 ms, walks
/// 100 ms, sleeping poses 1000 ms.
pub open spec fn anim_frame_ms(a: int) -> u32 {
    if a == 1 || a == 2 || a == 3 || a == 4 { 100 }
    else if a == 5 || a == 7 || a == 8 || a == 9 { 1000 }
    else { 250 }
}

fn layout(a: usize) -> (r: (u32, u32, u32))
    requires
        a < ANIM_COUNT,
    ensures
        r == (anim_row(a as int), anim_frames(a as int), anim_frame_ms(a as int)),
{
    if a == 0 { (1152, 8, 250) }
    else if a == 1 { (192, 8, 100) }
    else if a == 2 { (224, 8, 100) }
    else if a == 3 { (160, 4, 100) }
    else if a == 4 { (128, 4, 100) }
    else if a == 5 { (512, 1, 1000) }
    else if a == 6 { (1024, 8, 250) }
    else if a == 7 { (384, 1, 1000) }
    else if a == 8 { (448, 1, 1000) }
    else if a == 9 { (576, 1, 1000) }
    else if a == 10 { (1216, 7, 250) }
    else { (1280, 8, 250) }
}

/// The RGBA bytes of frame `k` of animation `a` cut from `img` and resampled
/// to `size` x `size` pixels with `filter`.
pub open spec fn frame_pixels(img: Pixels, a: int, k: int, size: u32, filter: Filter) -> Seq<u8> {
    let x = (SOURCE_FRAME_PX * k) as u32;
    let y = anim_row(a);
    let win = crop_window(img, x, y, SOURCE_FRAME_PX, SOURCE_FRAME_PX);
    resampled_rgba(
        win.2 as u32,
        win.3 as u32,
        crop_data(img, x, y, SOURCE_FRAME_PX, SOURCE_FRAME_PX),
        size,
        size,
        filter,
    )
}

/// `durations` shows each of `n` frames of animation `a` for its time.
pub open spec fn durations_for(durations: Seq<u32>, n: int, a: int) -> bool {
    durations.len() == n && forall|i: int| 0 <= i < n ==> #[trigger] durations[i] == anim_frame_ms(a)
}

/// `pre` holds the half-block frames of all animations, uncropped.
pub open spec fn halfblock_frames(img: Pixels, pre: Seq<Vec<HbFrame>>) -> bool {
    &&& pre.len() == ANIM_COUNT
    &&& forall|a: int| 0 <= a < ANIM_COUNT ==> (#[trigger] pre[a])@.len() == anim_frames(a)
    &&& forall|a: int, k: int|
        #![trigger pre[a]@[k]]
        0 <= a < ANIM_COUNT && 0 <= k < anim_frames(a) ==> is_rgba_frame(
            pre[a]@[k],
            frame_pixels(img, a, k, HB_TARGET_PX, Filter::Lanczos3),
            HB_TARGET_PX,
            HB_TARGET_PX,
        )
}

/// `anims` are half-block animations with the frames `res`.
pub open spec fn halfblock_anims(anims: Seq<Anim>, res: Seq<Vec<HbFrame>>) -> bool {
    &&& anims.len() == ANIM_COUNT
    &&& forall|a: int|
        #![trigger anims[a]]
        0 <= a < ANIM_COUNT ==> (anims[a] matches Anim::HalfBlock { frames, durations_ms }
            && frames == res[a] && durations_for(durations_ms@, res[a]@.len() as int, a))
}

fn repeat_duration(ms: u32, n: usize, Ghost(a): Ghost<int>) -> (v: Vec<u32>)
    requires
        ms == anim_frame_ms(a),
    ensures
        durations_for(v@, n as int, a),
{
    let mut v: Vec<u32> = Vec::new();
    while v.len() < n
        invariant
            ms == anim_frame_ms(a),
            v@.len() <= n,
            forall|i: int| 0 <= i < v@.len() ==> #[trigger] v@[i] == anim_frame_ms(a),
        decreases n - v@.len(),
    {
        v.push(ms);
    }
    v
}

/// The half-block animations: every frame is cut from the sheet, scaled
/// down to 16 x 16 pixels (Lanczos3) and turned into cells; all frames are
/// then cropped to one shared box. Also gives the sprite's size in cells.
pub fn build_halfblock(img: &Pixels) -> (r: (Vec<Anim>, u16, u16))
    requires
        img.wf(),
    ensures
        exists|pre: Seq<Vec<HbFrame>>, res: Seq<Vec<HbFrame>>|
            halfblock_frames(*img, pre) && crop_outcome(pre, res) && halfblock_anims(r.0@, res)
                && (r.1, r.2) == (if res.len() > 0 && res[0]@.len() > 0 {
                (res[0]@[0].width_cells, res[0]@[0].height_cells)
            } else {
                (1u16, 1u16)
            }),
{
    let mut groups: Vec<Vec<HbFrame>> = Vec::new();
    let mut a: usize = 0;
    while a < ANIM_COUNT
        invariant
            img.wf(),
            a <= ANIM_COUNT,
            groups@.len() == a,
            forall|b: int| 0 <= b < a ==> (#[trigger] groups@[b])@.len() == anim_frames(b),
            forall|b: int, k: int|
                #![trigger groups@[b]@[k]]
                0 <= b < a && 0 <= k < anim_frames(b) ==> is_rgba_frame(
                    groups@[b]@[k],
                    frame_pixels(*img, b, k, HB_TARGET_PX, Filter::Lanczos3),
                    HB_TARGET_PX,
                    HB_TARGET_PX,
                ),
        decreases ANIM_COUNT - a,
    {
        let (y, n, _ms) = layout(a);
        let mut group: Vec<HbFrame> = Vec::new();
        let mut k: u32 = 0;
        while k < n
            invariant
                img.wf(),
                a < ANIM_COUNT,
                y == anim_row(a as int),
                n == anim_frames(a as int),
                k <= n,
                group@.len() == k,
                forall|j: int|
                    0 <= j < k ==> is_rgba_frame(
                        #[trigger] group@[j],
                        frame_pixels(*img, a as int, j, HB_TARGET_PX, Filter::Lanczos3),
                        HB_TARGET_PX,
                        HB_TARGET_PX,
                    ),
            decreases n - k,
        {
            let region = crop_imm(img, SOURCE_FRAME_PX * k, y, SOURCE_FRAME_PX, SOURCE_FRAME_PX);
            let scaled = resize_exact(&region, HB_TARGET_PX, HB_TARGET_PX, Filter::Lanczos3);
            assert(scaled.data@ == frame_pixels(*img, a as int, k as int, HB_TARGET_PX, Filter::Lanczos3));
            let f = crate::half_block::frame_from_rgba_bytes(scaled.data.as_slice(), scaled.width, scaled.height);
            group.push(f);
            k = k + 1;
        }
        groups.push(group);
        a = a + 1;
    }
    let ghost pre = groups@;
    assert(halfblock_frames(*img, pre));
    proof {
        assert forall|g: int, i: int|
            #![trigger pre[g]@[i]]
            crate::half_block::valid_frame(pre, g, i) implies pre[g]@[i].wf()
                && pre[g]@[i].width_cells == 16 && pre[g]@[i].height_cells == 8 by {
            assert(is_rgba_frame(
                pre[g]@[i],
                frame_pixels(*img, g, i, HB_TARGET_PX, Filter::Lanczos3),
                HB_TARGET_PX,
                HB_TARGET_PX,
            ));
        }
        crate::half_block::lemma_uniform_readable(pre, 16, 8);
    }
    let mut groups = crate::half_block::crop_frames_to_union(groups);
    let ghost res = groups@;
    proof {
        crate::half_block::lemma_crop_outcome_shape(pre, res);
    }
    let (cell_w, cell_h) = if groups.len() > 0 && groups[0].len() > 0 {
        (groups[0][0].width_cells, groups[0][0].height_cells)
    } else {
        (1, 1)
    };
    let mut anims: Vec<Anim> = Vec::new();
    let mut a: usize = 0;
    while a < ANIM_COUNT
        invariant
            res.len() == ANIM_COUNT,
            a <= ANIM_COUNT,
            groups@ == res.subrange(a as int, ANIM_COUNT as int),
            anims@.len() == a,
            forall|b: int|
                #![trigger anims@[b]]
                0 <= b < a ==> (anims@[b] matches Anim::HalfBlock { frames, durations_ms }
                    && frames == res[b] && durations_for(durations_ms@, res[b]@.len() as int, b)),
        decreases ANIM_COUNT - a,
    {
        let (_y, _n, ms) = layout(a);
        let frames = groups.remove(0);
        let durations_ms = repeat_duration(ms, frames.len(), Ghost(a as int));
        anims.push(Anim::HalfBlock { frames, durations_ms });
        assert(groups@ =~= res.subrange(a + 1, ANIM_COUNT as int));
        a = a + 1;
    }
    assert(halfblock_anims(anims@, res));
    (anims, cell_w, cell_h)
}

/// The sixel text of frame `k` of animation `a`: cut from the sheet,
/// scaled up to 64 x 64 pixels (nearest neighbour) and encoded.
pub open spec fn frame_sixel(img: Pixels, a: int, k: int) -> Option<Seq<char>> {
    sixel_text(
        frame_pixels(img, a, k, SIXEL_TARGET_PX, Filter::Nearest),
        SIXEL_TARGET_PX as usize,
        SIXEL_TARGET_PX as usize,
    )
}

/// `anims` are sixel animations of the frames of the sheet.
pub open spec fn sixel_anims(img: Pixels, anims: Seq<Anim>) -> bool {
    &&& anims.len() == ANIM_COUNT
    &&& forall|a: int|
        #![trigger anims[a]]
        0 <= a < ANIM_COUNT ==> (anims[a] matches Anim::Sixel { sixels, durations_ms }
            && sixels@.len() == anim_frames(a) && durations_for(durations_ms@, anim_frames(a) as int, a)
            && forall|k: int|
            0 <= k < anim_frames(a) ==> frame_sixel(img, a, k) == Some(#[trigger] sixels@[k]@))
}

/// A frame of the sheet that the sixel encoder refuses.
pub open spec fn some_frame_refused(img: Pixels) -> bool {
    exists|a: int, k: int| 0 <= a < ANIM_COUNT && 0 <= k < anim_frames(a) && #[trigger] frame_sixel(img, a, k) is None
}

/// The sixel animations, and the sprite's size in cells (a 64-pixel image
/// over cells of 9 x 18 pixels, rounded up); an error when the encoder
/// refuses a frame.
pub fn build_sixel(img: &Pixels) -> (r: Result<(Vec<Anim>, u16, u16), crate::sixel::EncodeError>)
    requires
        img.wf(),
    ensures
        match r {
            Ok((anims, w, h)) => sixel_anims(*img, anims@) && w == 8 && h == 4,
            Err(_) => some_frame_refused(*img),
        },
{
    let mut anims: Vec<Anim> = Vec::new();
    let mut a: usize = 0;
    while a < ANIM_COUNT
        invariant
            img.wf(),
            a <= ANIM_COUNT,
            anims@.len() == a,
            forall|b: int|
                #![trigger anims@[b]]
                0 <= b < a ==> (anims@[b] matches Anim::Sixel { sixels, durations_ms }
                    && sixels@.len() == anim_frames(b) && durations_for(
                    durations_ms@,
                    anim_frames(b) as int,
                    b,
                ) && forall|k: int|
                    0 <= k < anim_frames(b) ==> frame_sixel(*img, b, k) == Some(#[trigger] sixels@[k]@)),
        decreases ANIM_COUNT - a,
    {
        let (y, n, ms) = layout(a);
        let mut sixels: Vec<String> = Vec::new();
        let mut k: u32 = 0;
        while k < n
            invariant
                img.wf(),
                a < ANIM_COUNT,
                y == anim_row(a as int),
                n == anim_frames(a as int),
                k <= n,
                sixels@.len() == k,
                forall|j: int| 0 <= j < k ==> frame_sixel(*img, a as int, j) == Some(#[trigger] sixels@[j]@),
            decreases n - k,
        {
            let region = crop_imm(img, SOURCE_FRAME_PX * k, y, SOURCE_FRAME_PX, SOURCE_FRAME_PX);
            let scaled = resize_exact(&region, SIXEL_TARGET_PX, SIXEL_TARGET_PX, Filter::Nearest);
            assert(scaled.data@ == frame_pixels(*img, a as int, k as int, SIXEL_TARGET_PX, Filter::Nearest));
            let s = match encode_rgba(scaled.data.as_slice(), scaled.width, scaled.height) {
                Ok(s) => s,
                Err(e) => {
                    assert(frame_sixel(*img, a as int, k as int) is None);
                    return Err(e);
                },
            };
            sixels.push(s);
            k = k + 1;
        }
        let durations_ms = repeat_duration(ms, n as usize, Ghost(a as int));
        anims.push(Anim::Sixel { sixels, durations_ms });
        a = a + 1;
    }
    let cell_w = ((SIXEL_TARGET_PX + CELL_PIXEL_W - 1) / CELL_PIXEL_W) as u16;
    let cell_h = ((SIXEL_TARGET_PX + CELL_PIXEL_H - 1) / CELL_PIXEL_H) as u16;
    Ok((anims, cell_w, cell_h))
}

/// A sheet that could not be turned into animations.
#[derive(Debug)]
pub enum BuildError {
    /// The sheet's bytes are not an image.
    Decode,
    /// The sixel encoder refused a frame.
    Sixel,
}

/// The animations built for `renderer` from the decoded sheet `img`.
pub open spec fn built_for(renderer: Renderer, img: Pixels, r: (Vec<Anim>, u16, u16)) -> bool {
    match renderer {
        Renderer::Sixel => sixel_anims(img, r.0@) && r.1 == 8 && r.2 == 4,
        Renderer::HalfBlock => exists|pre: Seq<Vec<HbFrame>>, res: Seq<Vec<HbFrame>>|
            halfblock_frames(img, pre) && crop_outcome(pre, res) && halfblock_anims(r.0@, res)
                && (r.1, r.2) == (if res.len() > 0 && res[0]@.len() > 0 {
                (res[0]@[0].width_cells, res[0]@[0].height_cells)
            } else {
                (1u16, 1u16)
            }),
    }
}

/// `img` is the decoded sheet `bytes`.
pub open spec fn decodes_to(bytes: Seq<u8>, img: Pixels) -> bool {
    img.wf() && decoded_rgba(bytes) == Some((img.width, img.height, img.data@))
}

/// Decodes the sprite sheet and builds the animations for `renderer`.
pub fn build_animations(renderer: Renderer, sheet: &[u8]) -> (r: Result<(Vec<Anim>, u16, u16), BuildError>)
    ensures
        match r {
            Ok(built) => exists|img: Pixels| decodes_to(sheet@, img) && built_for(renderer, img, built),
            Err(BuildError::Decode) => decoded_rgba(sheet@) is None,
            Err(BuildError::Sixel) => renderer == Renderer::Sixel && exists|img: Pixels|
                decodes_to(sheet@, img) && some_frame_refused(img),
        },
{
    let img = match decode_rgba(sheet) {
        Ok(p) => p,
        Err(_) => return Err(BuildError::Decode),
    };
    assert(decodes_to(sheet@, img));
    match renderer {
        Renderer::Sixel => match build_sixel(&img) {
            Ok(r) => Ok(r),
            Err(_) => Err(BuildError::Sixel),
        },
        Renderer::HalfBlock => Ok(build_halfblock(&img)),
    }
}

} // verus!
