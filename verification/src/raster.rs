//! Decoded images as plain RGBA bytes, and the image-crate operations the
//! sprite loader needs: decoding, cropping and resampling.

use vstd::prelude::*;

verus! {

/// An RGBA image of 8 bits per channel, stored row by row.
pub struct Pixels {
    pub width: u32,
    pub height: u32,
    pub data: Vec<u8>,
}

impl Pixels {
    /// Four bytes per pixel.
    pub open spec fn wf(&self) -> bool {
        self.data@.len() == self.width * self.height * 4
    }
}

/// The resampling filter of a resize.
#[derive(Clone, Copy, PartialEq, Eq, Structural)]
pub enum Filter {
    Nearest,
    Lanczos3,
}

#[verifier::external_type_specification]
#[verifier::external_body]
pub struct ExImageError(image::ImageError);

/// The image that `bytes` decode to (in any format the image crate
/// recognises), as width, height and 8-bit RGBA bytes; `None` when they do
/// not decode.
pub uninterp spec fn decoded_rgba(bytes: Seq<u8>) -> Option<(u32, u32, Seq<u8>)>;

/// The RGBA bytes of an image resampled to `nwidth` x `nheight` pixels.
pub uninterp spec fn resampled_rgba(
    width: u32,
    height: u32,
    data: Seq<u8>,
    nwidth: u32,
    nheight: u32,
    filter: Filter,
) -> Seq<u8>;

/// Decodes an image (`image::load_from_memory`) and converts it to 8-bit
/// RGBA (`DynamicImage::to_rgba8`). The result is the one named by
/// `decoded_rgba`; the RGBA buffer holds four bytes per pixel.
#[verifier::external_body]
pub(crate) fn decode_rgba(bytes: &[u8]) -> (r: Result<Pixels, image::ImageError>)
    ensures
        match r {
            Ok(p) => p.wf() && decoded_rgba(bytes@) == Some((p.width, p.height, p.data@)),
            Err(_) => decoded_rgba(bytes@) is None,
        },
{
    match image::load_from_memory(bytes) {
        Ok(img) => {
            let rgba = img.to_rgba8();
            Ok(Pixels { width: rgba.width(), height: rgba.height(), data: rgba.into_raw() })
        },
        Err(e) => Err(e),
    }
}

/// Resamples an image to exactly `nwidth` x `nheight` pixels
/// (`image::imageops::resize`). The result has the requested size, four
/// bytes per pixel, and the bytes named by `resampled_rgba`.
#[verifier::external_body]
pub(crate) fn resize_exact(p: &Pixels, nwidth: u32, nheight: u32, filter: Filter) -> (r: Pixels)
    requires
        p.wf(),
    ensures
        r.width == nwidth,
        r.height == nheight,
        r.wf(),
        r.data@ == resampled_rgba(p.width, p.height, p.data@, nwidth, nheight, filter),
{
    let buf = image::RgbaImage::from_raw(p.width, p.height, p.data.clone()).unwrap();
    let f = match filter {
        Filter::Nearest => image::imageops::FilterType::Nearest,
        Filter::Lanczos3 => image::imageops::FilterType::Lanczos3,
    };
    let out = image::imageops::resize(&buf, nwidth, nheight, f);
    Pixels { width: out.width(), height: out.height(), data: out.into_raw() }
}

/// The pixel at column `x`, row `y`, as four RGBA bytes.
pub open spec fn pixel(p: Pixels, x: int, y: int) -> Seq<u8> {
    p.data@.subrange((y * p.width + x) * 4, (y * p.width + x) * 4 + 4)
}

/// The crop window clamped to the image, as the image crate clamps it: the
/// corner moves inside the image and the size shrinks to what is left.
pub open spec fn crop_window(p: Pixels, x: u32, y: u32, w: u32, h: u32) -> (int, int, int, int) {
    let cx = if x < p.width { x as int } else { p.width as int };
    let cy = if y < p.height { y as int } else { p.height as int };
    let cw = if w < p.width - cx { w as int } else { p.width - cx };
    let ch = if h < p.height - cy { h as int } else { p.height - cy };
    (cx, cy, cw, ch)
}

/// The bytes of the region of `p` in the crop window, row by row.
pub open spec fn crop_data(p: Pixels, x: u32, y: u32, w: u32, h: u32) -> Seq<u8> {
    let (cx, cy, cw, ch) = crop_window(p, x, y, w, h);
    Seq::new(
        (cw * ch * 4) as nat,
        |j: int| p.data@[((cy + (j / 4) / cw) * p.width + cx + (j / 4) % cw) * 4 + j % 4],
    )
}

/// `r` is the `w` x `h` region of `p` with top-left corner (`x`, `y`),
/// clamped to the image.
pub open spec fn is_crop(r: Pixels, p: Pixels, x: u32, y: u32, w: u32, h: u32) -> bool {
    &&& r.wf()
    &&& r.width == crop_window(p, x, y, w, h).2
    &&& r.height == crop_window(p, x, y, w, h).3
    &&& r.data@ == crop_data(p, x, y, w, h)
    &&& forall|ry: int, rx: int|
        0 <= ry < r.height && 0 <= rx < r.width ==> #[trigger] pixel(r, rx, ry) == pixel(
            p,
            crop_window(p, x, y, w, h).0 + rx,
            crop_window(p, x, y, w, h).1 + ry,
        )
}

/// Copies the `w` x `h` region with top-left corner (`x`, `y`), clamped to
/// the image (the behaviour of `DynamicImage::crop_imm`).
pub fn crop_imm(p: &Pixels, x: u32, y: u32, w: u32, h: u32) -> (r: Pixels)
    requires
        p.wf(),
    ensures
        is_crop(r, *p, x, y, w, h),
{
    let cx = if x < p.width { x } else { p.width };
    let cy = if y < p.height { y } else { p.height };
    let cw = if w < p.width - cx { w } else { p.width - cx };
    let ch = if h < p.height - cy { h } else { p.height - cy };
    let mut data: Vec<u8> = Vec::new();
    let mut ry: u32 = 0;
    while ry < ch
        invariant
            p.data.len() == p.data@.len(),
            p.wf(),
            cx + cw <= p.width,
            cy + ch <= p.height,
            ry <= ch,
            data@.len() == ry * cw * 4,
            forall|yy: int, xx: int, k: int|
                0 <= yy < ry && 0 <= xx < cw && 0 <= k < 4 ==> #[trigger] data@[(yy * cw + xx) * 4 + k]
                    == p.data@[((cy + yy) * p.width + cx + xx) * 4 + k],
        decreases ch - ry,
    {
        let mut rx: u32 = 0;
        while rx < cw
            invariant
                p.data.len() == p.data@.len(),
                p.wf(),
                cx + cw <= p.width,
                cy + ch <= p.height,
                ry < ch,
                rx <= cw,
                data@.len() == (ry * cw + rx) * 4,
                forall|yy: int, xx: int, k: int|
                    0 <= yy < ry && 0 <= xx < cw && 0 <= k < 4 ==> #[trigger] data@[(yy * cw + xx) * 4
                        + k] == p.data@[((cy + yy) * p.width + cx + xx) * 4 + k],
                forall|xx: int, k: int|
                    0 <= xx < rx && 0 <= k < 4 ==> #[trigger] data@[(ry * cw + xx) * 4 + k]
                        == p.data@[((cy + ry) * p.width + cx + xx) * 4 + k],
            decreases cw - rx,
        {
            let ghost before = data@;
            proof {
                lemma_pixel_offset(cy + ry, cx + rx, p.width as int, p.height as int);
            }
            let base = ((cy + ry) as usize * p.width as usize + (cx + rx) as usize) * 4;
            data.push(p.data[base]);
            data.push(p.data[base + 1]);
            data.push(p.data[base + 2]);
            data.push(p.data[base + 3]);
            proof {
                assert forall|yy: int, xx: int, k: int|
                    0 <= yy < ry && 0 <= xx < cw && 0 <= k < 4 implies #[trigger] data@[(yy * cw + xx)
                    * 4 + k] == p.data@[((cy + yy) * p.width + cx + xx) * 4 + k] by {
                    lemma_pixel_offset(yy, xx, cw as int, ry as int);
                    assert(data@[(yy * cw + xx) * 4 + k] == before[(yy * cw + xx) * 4 + k]);
                }
                assert forall|xx: int, k: int|
                    0 <= xx < rx + 1 && 0 <= k < 4 implies #[trigger] data@[(ry * cw + xx) * 4 + k]
                    == p.data@[((cy + ry) * p.width + cx + xx) * 4 + k] by {
                    if xx < rx {
                        assert((ry * cw + xx) * 4 + k < (ry * cw + rx) * 4);
                        assert(data@[(ry * cw + xx) * 4 + k] == before[(ry * cw + xx) * 4 + k]);
                    } else {
                        assert((ry * cw + xx) * 4 + k == (ry * cw + rx) * 4 + k);
                    }
                }
            }
            rx = rx + 1;
        }
        proof {
            crate::arith::lemma_next_row(ry as int, cw as int);
            assert((ry + 1) * cw * 4 == (ry * cw + cw) * 4) by (nonlinear_arith)
                requires
                    (ry + 1) * cw == ry * cw + cw,
            ;
        }
        ry = ry + 1;
    }
    let r = Pixels { width: cw, height: ch, data };
    assert(ch * cw * 4 == cw * ch * 4) by (nonlinear_arith);
    assert forall|j: int| 0 <= j < r.data@.len() implies #[trigger] r.data@[j] == crop_data(
        *p,
        x,
        y,
        w,
        h,
    )[j] by {
        crate::arith::lemma_split_index(j, cw as int, ch as int);
        let yy = (j / 4) / (cw as int);
        let xx = (j / 4) % (cw as int);
        let k = j % 4;
        assert(data@[(yy * cw + xx) * 4 + k] == p.data@[((cy + yy) * p.width + cx + xx) * 4 + k]);
    }
    assert(r.data@ =~= crop_data(*p, x, y, w, h));
    assert forall|yy: int, xx: int|
        0 <= yy < r.height && 0 <= xx < r.width implies #[trigger] pixel(r, xx, yy) == pixel(
        *p,
        cx + xx,
        cy + yy,
    ) by {
        lemma_pixel_offset(yy, xx, cw as int, ch as int);
        lemma_pixel_offset(cy + yy, cx + xx, p.width as int, p.height as int);
        assert forall|k: int| 0 <= k < 4 implies #[trigger] pixel(r, xx, yy)[k] == pixel(
            *p,
            cx + xx,
            cy + yy,
        )[k] by {
            assert(data@[(yy * cw + xx) * 4 + k] == p.data@[((cy + yy) * p.width + cx + xx) * 4
                + k]);
        }
        assert(pixel(r, xx, yy) =~= pixel(*p, cx + xx, cy + yy));
    }
    r
}

/// The bytes of pixel (`x`, `y`) of a `w` x `h` image lie inside its buffer.
pub proof fn lemma_pixel_offset(y: int, x: int, w: int, h: int)
    requires
        0 <= y < h,
        0 <= x < w,
    ensures
        0 <= y * w + x,
        (y * w + x) * 4 + 4 <= w * h * 4,
        (y * w + x) * 4 + 4 <= h * w * 4,
{
    crate::arith::lemma_grid_index_in_bounds(y, x, w, h);
}

} // verus!
