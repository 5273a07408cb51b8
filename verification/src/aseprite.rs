//! Loading one tagged animation from an Aseprite file: the frames from the
//! tag's first to its last frame, as half-block frames cropped to their
//! shared bounding box, with each frame's duration.

use vstd::prelude::*;
use crate::half_block::{crop_outcome, hb_cols, hb_rows, is_rgba_frame, rgba_readable, HbFrame};
use crate::raster::Pixels;
use crate::sprite::Frame;

verus! {

/// A tag of an Aseprite file: a named range of frames.
pub struct AseTag {
    pub name: String,
    pub from_frame: u32,
    pub to_frame: u32,
}

/// A frame of an Aseprite file: its rendered RGBA image and its duration.
pub struct AseFrame {
    pub image: Pixels,
    pub duration_ms: u32,
}

pub open spec fn tag_view(t: AseTag) -> (Seq<char>, u32, u32) {
    (t.name@, t.from_frame, t.to_frame)
}

pub open spec fn frame_view(f: AseFrame) -> (u32, u32, Seq<u8>, u32) {
    (f.image.width, f.image.height, f.image.data@, f.duration_ms)
}

#[verifier::external_type_specification]
#[verifier::external_body]
pub struct ExAsepriteParseError(asefile::AsepriteParseError);

/// The little-endian 16-bit word at `i`.
pub open spec fn le16(s: Seq<u8>, i: int) -> int {
    s[i] as int + 256 * (s[i + 1] as int)
}

/// The little-endian 32-bit word at `i`.
pub open spec fn le32(s: Seq<u8>, i: int) -> int {
    le16(s, i) + 65536 * le16(s, i + 2)
}

// The chunk kinds the checks look into.
pub const CHUNK_LAYER: u16 = 0x2004;
pub const CHUNK_CEL: u16 = 0x2005;
pub const CHUNK_PALETTE: u16 = 0x2019;
pub const CHUNK_TILESET: u16 = 0x2023;

// How a cel stores its pixels.
pub const CEL_RAW: u16 = 0;
pub const CEL_LINKED: u16 = 1;
pub const CEL_COMPRESSED: u16 = 2;

/// The number of bytes the zlib stream at the start of `data` inflates to,
/// or `None` when the stream is broken.
pub uninterp spec fn zlib_inflated_len(data: Seq<u8>) -> Option<nat>;

/// Inflates the zlib stream at the start of `data`
/// (`flate2::read::ZlibDecoder`, read to its end, as the Aseprite reader
/// reads a compressed cel) and counts the bytes; the count is the one named
/// by `zlib_inflated_len`.
#[verifier::external_body]
fn inflated_len(data: &[u8]) -> (r: Option<usize>)
    ensures
        match r {
            Some(n) => zlib_inflated_len(data@) == Some(n as nat),
            None => zlib_inflated_len(data@) is None,
        },
{
    let mut out = Vec::new();
    match std::io::Read::read_to_end(&mut flate2::read::ZlibDecoder::new(data), &mut out) {
        Ok(_) => Some(out.len()),
        Err(_) => None,
    }
}

/// A chunk of kind `kind` whose data is `s[d..e]`, after `layers` layers, in
/// a file of `frames` frames and `bpp` bytes per pixel, gives the reader no
/// cause to panic. The reader panics on: a first layer nested under no
/// parent (it looks for the parent below layer 0); a linked cel pointing
/// past the last frame (it indexes a table of frames by it); a compressed
/// cel whose pixels inflate to fewer than its width times height (drawing
/// it indexes past them); a new-style palette spanning every 32-bit index
/// (its entry count overflows); and a tileset, whose tilemap cels are drawn
/// by indexing the tileset with tile numbers that nothing checks. Cels
/// other than plain, linked or compressed ones (tilemap cels) are refused
/// too: without a tileset the reader refuses them anyway. With `tiles`,
/// tilesets and tilemap cels pass unchecked. Chunks too short for the
/// fields read here make the reader fail, so they pass.
pub open spec fn chunk_ok(s: Seq<u8>, d: int, e: int, kind: int, layers: int, frames: int, bpp: int, tiles: bool) -> bool {
    if kind == CHUNK_LAYER {
        layers == 0 && e - d >= 6 ==> le16(s, d + 4) == 0
    } else if kind == CHUNK_CEL {
        e - d >= 16 ==> {
            let cel_type = le16(s, d + 7);
            if cel_type == CEL_RAW {
                true
            } else if cel_type == CEL_LINKED {
                e - d >= 18 ==> le16(s, d + 16) < frames
            } else if cel_type == CEL_COMPRESSED {
                e - d >= 20 ==> match zlib_inflated_len(s.subrange(d + 20, e)) {
                    Some(l) => !((l as int) % bpp == 0 && (l as int) / bpp < le16(s, d + 16) * le16(s, d + 18)),
                    None => true,
                }
            } else {
                tiles
            }
        }
    } else if kind == CHUNK_PALETTE {
        e - d >= 12 ==> !(le32(s, d + 4) == 0 && le32(s, d + 8) == 0xffff_ffff)
    } else {
        tiles || kind != CHUNK_TILESET
    }
}

/// The rest of the file from `pos` on, with `frames` frames still to read,
/// `chunks` chunks of the current frame still to read and `avail` bytes of
/// the current frame left for them, after `layers` layers and cels that name
/// layers below `cel_layers`, in a file of `total` frames and `bpp` bytes
/// per pixel: every frame header and chunk is present and within its frame
/// (else the reader fails), every chunk passes `chunk_ok`, and every cel
/// names a layer the file has (the reader panics on one that does not, when
/// checking or drawing it).
pub open spec fn walk_ok(
    s: Seq<u8>,
    pos: int,
    frames: int,
    chunks: int,
    avail: int,
    layers: int,
    cel_layers: int,
    total: int,
    bpp: int,
    tiles: bool,
) -> bool
    decreases s.len() - pos,
{
    if pos < 0 {
        false
    } else if chunks <= 0 {
        if frames <= 0 {
            cel_layers <= layers
        } else if pos + 16 > s.len() {
            false
        } else {
            let n = if le32(s, pos + 12) == 0 { le16(s, pos + 6) } else { le32(s, pos + 12) };
            walk_ok(s, pos + 16, frames - 1, n, le32(s, pos) - 16, layers, cel_layers, total, bpp, tiles)
        }
    } else if pos + 6 > s.len() {
        false
    } else {
        let size = le32(s, pos);
        let kind = le16(s, pos + 4);
        if size < 6 || size > avail || pos + size > s.len() || !chunk_ok(
            s,
            pos + 6,
            pos + size,
            kind,
            layers,
            total,
            bpp,
            tiles,
        ) {
            false
        } else {
            walk_ok(
                s,
                pos + size,
                frames,
                chunks - 1,
                avail - size,
                if kind == CHUNK_LAYER { layers + 1 } else { layers },
                if kind == CHUNK_CEL && size >= 8 && le16(s, pos + 6) + 1 > cel_layers {
                    le16(s, pos + 6) + 1
                } else {
                    cel_layers
                },
                total,
                bpp,
                tiles,
            )
        }
    }
}

/// The bytes per pixel of an Aseprite colour depth (8, 16 or 32 bits).
pub open spec fn depth_bytes(depth: int) -> int {
    if depth == 8 {
        1
    } else if depth == 16 {
        2
    } else {
        4
    }
}

/// The file `s` has a header the reader accepts (the magic number and a
/// colour depth of 8, 16 or 32 bits) and frames whose chunks pass `walk_ok`,
/// tilesets and tilemap cels passing unchecked when `tiles` holds.
pub open spec fn ase_scan(s: Seq<u8>, tiles: bool) -> bool {
    &&& s.len() >= 128
    &&& le16(s, 4) == 0xA5E0
    &&& (le16(s, 12) == 8 || le16(s, 12) == 16 || le16(s, 12) == 32)
    &&& walk_ok(s, 128, le16(s, 6), 0, 0, 0, 0, le16(s, 6), depth_bytes(le16(s, 12)), tiles)
}

/// The Aseprite files that can be handed to the reader without making it
/// panic (`ase_scan` without tiles). Every file outside this set either
/// makes the reader fail (a short or inconsistent file), makes it or its
/// frame drawing panic (see `chunk_ok` and `walk_ok`), or holds a tileset
/// (`ase_scan` with tiles tells these apart).
pub open spec fn ase_readable(s: Seq<u8>) -> bool {
    ase_scan(s, false)
}

fn read16(s: &[u8], i: usize) -> (r: u16)
    requires
        i + 1 < s.len(),
    ensures
        r == le16(s@, i as int),
{
    s[i] as u16 + (s[i + 1] as u16) * 256
}

fn read32(s: &[u8], i: usize) -> (r: u32)
    requires
        i + 3 < s.len(),
    ensures
        r == le32(s@, i as int),
{
    let lo: u16 = read16(s, i);
    let hi: u16 = read16(s, i + 2);
    assert(hi as int * 65536 <= 65535 * 65536) by (nonlinear_arith)
        requires
            hi <= 65535,
    ;
    lo as u32 + (hi as u32) * 65536
}

/// Whether the Aseprite file `bytes` can be handed to the reader (see `ase_readable`).
pub fn aseprite_readable(bytes: &[u8]) -> (r: bool)
    ensures
        r == ase_readable(bytes@),
{
    scan_aseprite(bytes, false)
}

/// Whether the Aseprite file `bytes` passes `ase_scan` with or without tiles.
fn scan_aseprite(bytes: &[u8], tiles: bool) -> (r: bool)
    ensures
        r == ase_scan(bytes@, tiles),
{
    let len = bytes.len();
    if len < 128 || read16(bytes, 4) != 0xA5E0 {
        return false;
    }
    let depth = read16(bytes, 12);
    if depth != 8 && depth != 16 && depth != 32 {
        return false;
    }
    let bpp: u64 = if depth == 8 { 1 } else if depth == 16 { 2 } else { 4 };
    let total: u16 = read16(bytes, 6);
    let mut pos: usize = 128;
    let mut frames: u32 = total as u32;
    let mut chunks: u32 = 0;
    let mut avail: i64 = 0;
    let mut layers: usize = 0;
    let mut cel_layers: u32 = 0;
    loop
        invariant
            len == bytes@.len(),
            128 <= pos <= len,
            layers <= pos,
            cel_layers <= 65536,
            -16 <= avail <= 0xffff_ffff,
            bpp == depth_bytes(depth as int),
            bpp == 1 || bpp == 2 || bpp == 4,
            ase_scan(bytes@, tiles) == walk_ok(
                bytes@,
                pos as int,
                frames as int,
                chunks as int,
                avail as int,
                layers as int,
                cel_layers as int,
                total as int,
                bpp as int,
                tiles,
            ),
        decreases len - pos,
    {
        if chunks == 0 {
            if frames == 0 {
                return cel_layers as usize <= layers;
            }
            if len - pos < 16 {
                return false;
            }
            let num_bytes = read32(bytes, pos);
            let old = read16(bytes, pos + 6);
            let new = read32(bytes, pos + 12);
            chunks = if new == 0 { old as u32 } else { new };
            avail = num_bytes as i64 - 16;
            frames = frames - 1;
            pos = pos + 16;
        } else {
            if len - pos < 6 {
                return false;
            }
            let size = read32(bytes, pos);
            let kind = read16(bytes, pos + 4);
            if size < 6 || size as i64 > avail || size as usize > len - pos {
                return false;
            }
            let d = pos + 6;
            let e = pos + size as usize;
            let ok = if kind == CHUNK_LAYER {
                !(layers == 0 && e - d >= 6) || read16(bytes, d + 4) == 0
            } else if kind == CHUNK_CEL {
                if e - d < 16 {
                    true
                } else {
                    let cel_type = read16(bytes, d + 7);
                    if cel_type == CEL_RAW {
                        true
                    } else if cel_type == CEL_LINKED {
                        e - d < 18 || read16(bytes, d + 16) < total
                    } else if cel_type == CEL_COMPRESSED {
                        if e - d < 20 {
                            true
                        } else {
                            let stream = vstd::slice::slice_subrange(bytes, d + 20, e);
                            match inflated_len(stream) {
                                Some(l) => {
                                    let cw = read16(bytes, d + 16) as u64;
                                    let ch = read16(bytes, d + 18) as u64;
                                    assert(cw * ch <= 0xffff * 0xffff) by (nonlinear_arith)
                                        requires
                                            cw <= 0xffff,
                                            ch <= 0xffff,
                                    ;
                                    let l64 = l as u64;
                                    !(l64 % bpp == 0 && l64 / bpp < cw * ch)
                                },
                                None => true,
                            }
                        }
                    } else {
                        tiles
                    }
                }
            } else if kind == CHUNK_PALETTE {
                e - d < 12 || !(read32(bytes, d + 4) == 0 && read32(bytes, d + 8) == 0xffff_ffff)
            } else {
                tiles || kind != CHUNK_TILESET
            };
            if !ok {
                return false;
            }
            if kind == CHUNK_LAYER {
                layers = layers + 1;
            }
            if kind == CHUNK_CEL && size >= 8 {
                let l = read16(bytes, d) as u32 + 1;
                if l > cel_layers {
                    cel_layers = l;
                }
            }
            avail = avail - size as i64;
            chunks = chunks - 1;
            pos = e;
        }
    }
}

#[verifier::external_type_specification]
#[verifier::external_body]
pub struct ExAsepriteFile(asefile::AsepriteFile);

/// An Aseprite file as read, with the bytes it was read from.
pub struct AseFile {
    file: asefile::AsepriteFile,
    source: Ghost<Seq<u8>>,
}

impl AseFile {
    /// The bytes the file was read from.
    pub closed spec fn source(&self) -> Seq<u8> {
        self.source@
    }
}

/// The tags (name, first frame, last frame) and the number of frames of the
/// Aseprite file `bytes`, or `None` when the reader refuses it.
pub uninterp spec fn aseprite_outline(bytes: Seq<u8>) -> Option<(Seq<(Seq<char>, u32, u32)>, u32)>;

/// Frame `i` of the Aseprite file `bytes`, rendered: its width, height and
/// RGBA bytes, and its duration in milliseconds.
pub uninterp spec fn aseprite_frame(bytes: Seq<u8>, i: u32) -> (u32, u32, Seq<u8>, u32);

/// Reads an Aseprite file (`AsepriteFile::read`) and lists its tags
/// (`num_tags`, `tag`, `Tag::name`, `from_frame`, `to_frame`) and its number
/// of frames (`num_frames`), as named by `aseprite_outline`. The reader
/// panics on some malformed files (see `ase_readable`), so only files that
/// pass that check are handed to it.
#[verifier::external_body]
fn read_aseprite(bytes: &[u8]) -> (r: Result<(AseFile, Vec<AseTag>, u32), asefile::AsepriteParseError>)
    requires
        ase_readable(bytes@),
    ensures
        match r {
            Ok((f, tags, n)) => f.source() == bytes@ && aseprite_outline(bytes@) == Some(
                (tags@.map_values(|t: AseTag| tag_view(t)), n),
            ),
            Err(_) => aseprite_outline(bytes@) is None,
        },
{
    let file = asefile::AsepriteFile::read(std::io::Cursor::new(bytes))?;
    let mut tags = Vec::new();
    for i in 0..file.num_tags() {
        let t = file.tag(i);
        tags.push(AseTag { name: t.name().to_string(), from_frame: t.from_frame(), to_frame: t.to_frame() });
    }
    let n = file.num_frames();
    Ok((AseFile { file, source: Ghost(bytes@) }, tags, n))
}

/// Renders frame `i` of a read Aseprite file (`AsepriteFile::frame`,
/// `Frame::image`, `Frame::duration`), as named by `aseprite_frame`; the
/// image holds four bytes per pixel.
#[verifier::external_body]
fn render_aseprite_frame(f: &AseFile, i: u32) -> (r: AseFrame)
    requires
        ase_readable(f.source()),
        aseprite_outline(f.source()) matches Some((_tags, n)) && i < n,
    ensures
        frame_view(r) == aseprite_frame(f.source(), i),
        r.image.wf(),
{
    let frame = f.file.frame(i);
    let img = frame.image();
    let image = Pixels { width: img.width(), height: img.height(), data: img.into_raw() };
    AseFrame { image, duration_ms: frame.duration() }
}

/// The tags of the Aseprite file `bytes` as the reader lists them.
pub open spec fn outline_tags(bytes: Seq<u8>) -> Seq<(Seq<char>, u32, u32)> {
    aseprite_outline(bytes).unwrap().0
}

/// The number of frames of the Aseprite file `bytes`.
pub open spec fn outline_frames(bytes: Seq<u8>) -> u32 {
    aseprite_outline(bytes).unwrap().1
}

/// An animation: its frames and how long each is shown.
pub struct AnimatedSprite {
    pub frames: Vec<Frame>,
    pub durations_ms: Vec<u32>,
}

/// Tag `i` of `tags` is the first tag named `name`.
pub open spec fn is_first_tag(tags: Seq<(Seq<char>, u32, u32)>, name: Seq<char>, i: int) -> bool {
    &&& 0 <= i < tags.len()
    &&& tags[i].0 == name
    &&& forall|j: int| 0 <= j < i ==> (#[trigger] tags[j]).0 != name
}

/// Some tag of `tags` is named `name`.
pub open spec fn has_tag(tags: Seq<(Seq<char>, u32, u32)>, name: Seq<char>) -> bool {
    exists|i: int| 0 <= i < tags.len() && (#[trigger] tags[i]).0 == name
}

/// The number of frames tag `t` spans.
pub open spec fn tag_len(t: (Seq<char>, u32, u32)) -> int {
    if t.1 <= t.2 { t.2 - t.1 + 1 } else { 0 }
}

/// Frame `k` of the file `bytes` holds four bytes per pixel and can be read
/// as half-block cells of the size of frame `first`.
pub open spec fn frame_fits(bytes: Seq<u8>, k: int, first: int) -> bool {
    let f = aseprite_frame(bytes, k as u32);
    let f0 = aseprite_frame(bytes, first as u32);
    &&& f.2.len() == f.0 * f.1 * 4
    &&& rgba_readable(f.2, f.0, f.1)
    &&& hb_cols(f.0) == hb_cols(f0.0)
    &&& hb_rows(f.1) == hb_rows(f0.1)
}

/// The frames of tag `t` exist among the `n` frames of the file `bytes` and
/// can be converted and cropped (see `frame_fits`).
pub open spec fn tag_ok(bytes: Seq<u8>, n: u32, t: (Seq<char>, u32, u32)) -> bool {
    tag_len(t) > 0 ==> {
        &&& t.2 < n
        &&& forall|k: int| t.1 <= k <= t.2 ==> #[trigger] frame_fits(bytes, k, t.1 as int)
    }
}

/// `sp` is tag `t`'s animation in the file `bytes`: its frames converted to
/// half-block cells and cropped to their shared bounding box, and their
/// durations.
pub open spec fn tag_animation(bytes: Seq<u8>, t: (Seq<char>, u32, u32), sp: AnimatedSprite) -> bool {
    &&& sp.durations_ms@.len() == tag_len(t)
    &&& forall|j: int|
        0 <= j < tag_len(t) ==> #[trigger] sp.durations_ms@[j] == aseprite_frame(bytes, (t.1 + j) as u32).3
    &&& exists|pre: Vec<HbFrame>|
        pre@.len() == tag_len(t) && (forall|j: int|
            0 <= j < tag_len(t) ==> {
                let f = aseprite_frame(bytes, (t.1 + j) as u32);
                is_rgba_frame(#[trigger] pre@[j], f.2, f.0, f.1)
            }) && crop_outcome(seq![pre], seq![sp.frames])
}

/// The first tag named `name`, if any.
pub fn find_tag(tags: &Vec<AseTag>, name: &str) -> (r: Option<usize>)
    ensures
        match r {
            Some(i) => is_first_tag(tags@.map_values(|t: AseTag| tag_view(t)), name@, i as int),
            None => !has_tag(tags@.map_values(|t: AseTag| tag_view(t)), name@),
        },
{
    let ghost ts = tags@.map_values(|t: AseTag| tag_view(t));
    let mut i: usize = 0;
    while i < tags.len()
        invariant
            i <= tags@.len(),
            ts == tags@.map_values(|t: AseTag| tag_view(t)),
            forall|j: int| 0 <= j < i ==> (#[trigger] ts[j]).0 != name@,
        decreases tags@.len() - i,
    {
        if crate::text::str_equals(tags[i].name.as_str(), name) {
            assert(ts[i as int].0 == tags@[i as int].name@);
            return Some(i);
        }
        assert(ts[i as int].0 == tags@[i as int].name@);
        i = i + 1;
    }
    proof {
        assert forall|j: int| 0 <= j < ts.len() implies (#[trigger] ts[j]).0 != name@ by {}
    }
    None
}

/// Whether `img` holds four bytes per pixel and can be read as half-block
/// cells of `cols` x `rows`.
fn image_fits(img: &Pixels, cols: u16, rows: u16) -> (r: bool)
    ensures
        r == (img.data@.len() == img.width * img.height * 4 && rgba_readable(img.data@, img.width, img.height)
            && hb_cols(img.width) == cols && hb_rows(img.height) == rows),
{
    let w = img.width as u128;
    let h = img.height as u128;
    assert(w * h <= 0xffff_ffff * 0xffff_ffff) by (nonlinear_arith)
        requires
            w <= 0xffff_ffff,
            h <= 0xffff_ffff,
    ;
    let size = w * h * 4;
    if size != img.data.len() as u128 {
        return false;
    }
    let c = img.width as u16;
    let r = (img.height / 2) as u16;
    if c > 0 && r > 0 {
        assert((2 * r - 1) * w <= 0x1_ffff * 0xffff_ffff) by (nonlinear_arith)
            requires
                r <= 0xffff,
                1 <= r,
                w <= 0xffff_ffff,
        ;
        let last = ((2 * r as u128 - 1) * w + c as u128 - 1) * 4;
        if last + 3 >= img.data.len() as u128 || last > 0xffff_ffff {
            return false;
        }
    }
    c == cols && r == rows
}

/// The animation of tag `t` of the read file `f` with `n` frames, or `None`
/// when its frames do not exist or cannot be converted (see `tag_ok`). Only
/// the tag's frames are rendered.
pub fn tag_sprite(f: &AseFile, n: u32, t: &AseTag) -> (r: Option<AnimatedSprite>)
    requires
        ase_readable(f.source()),
        aseprite_outline(f.source()) matches Some((_tags, m)) && m == n,
    ensures
        match r {
            Some(sp) => tag_ok(f.source(), n, tag_view(*t)) && tag_animation(f.source(), tag_view(*t), sp),
            None => !tag_ok(f.source(), n, tag_view(*t)),
        },
{
    let ghost bytes = f.source();
    let ghost tv = tag_view(*t);
    let mut frames: Vec<Frame> = Vec::new();
    let mut durations: Vec<u32> = Vec::new();
    if t.from_frame > t.to_frame {
        proof {
            crate::half_block::lemma_uniform_readable(seq![frames], 0, 0);
        }
        let cropped = crate::sprite::crop_frames_to_union(frames);
        return Some(AnimatedSprite { frames: cropped, durations_ms: durations });
    }
    if t.to_frame >= n {
        return None;
    }
    let first = render_aseprite_frame(f, t.from_frame);
    let cols = first.image.width as u16;
    let rows = (first.image.height / 2) as u16;
    let ghost f0 = aseprite_frame(bytes, t.from_frame);
    let mut k: u32 = t.from_frame;
    loop
        invariant_except_break
            bytes == f.source(),
            tv == tag_view(*t),
            ase_readable(bytes),
            aseprite_outline(bytes) matches Some((_tags, m)) && m == n,
            t.from_frame <= k <= t.to_frame,
            t.to_frame < n,
            f0 == aseprite_frame(bytes, t.from_frame),
            cols == hb_cols(f0.0),
            rows == hb_rows(f0.1),
            frames@.len() == k - t.from_frame,
            durations@.len() == k - t.from_frame,
            forall|j: int|
                t.from_frame <= j < k ==> #[trigger] frame_fits(bytes, j, t.from_frame as int),
            forall|j: int|
                0 <= j < k - t.from_frame ==> #[trigger] durations@[j] == aseprite_frame(
                    bytes,
                    (t.from_frame + j) as u32,
                ).3,
            forall|j: int|
                0 <= j < k - t.from_frame ==> {
                    let fr = aseprite_frame(bytes, (t.from_frame + j) as u32);
                    is_rgba_frame(#[trigger] frames@[j], fr.2, fr.0, fr.1)
                },
        ensures
            tag_ok(bytes, n, tv),
            frames@.len() == tag_len(tv),
            durations@.len() == tag_len(tv),
            forall|j: int|
                0 <= j < tag_len(tv) ==> #[trigger] durations@[j] == aseprite_frame(bytes, (t.from_frame + j) as u32).3,
            forall|j: int|
                0 <= j < tag_len(tv) ==> {
                    let fr = aseprite_frame(bytes, (t.from_frame + j) as u32);
                    is_rgba_frame(#[trigger] frames@[j], fr.2, fr.0, fr.1)
                },
        decreases t.to_frame - k,
    {
        let fr = render_aseprite_frame(f, k);
        proof {
            assert(((k as int) as u32) == k);
            assert(((t.from_frame as int) as u32) == t.from_frame);
            assert(aseprite_frame(bytes, k) == frame_view(fr));
        }
        if !image_fits(&fr.image, cols, rows) {
            proof {
                assert(!frame_fits(bytes, k as int, t.from_frame as int));
            }
            return None;
        }
        assert(frame_fits(bytes, k as int, t.from_frame as int));
        frames.push(crate::half_block::frame_from_rgba_bytes(fr.image.data.as_slice(), fr.image.width, fr.image.height));
        durations.push(fr.duration_ms);
        proof {
            let j = k - t.from_frame;
            assert((t.from_frame + j) as u32 == k);
        }
        if k == t.to_frame {
            break;
        }
        k = k + 1;
    }
    proof {
        let gs = seq![frames];
        assert forall|g: int, j: int|
            #![trigger gs[g]@[j]]
            crate::half_block::valid_frame(gs, g, j) implies gs[g]@[j].wf() && gs[g]@[j].width_cells == cols
                && gs[g]@[j].height_cells == rows by {
            assert(g == 0);
            let fr = aseprite_frame(bytes, (t.from_frame + j) as u32);
            assert(is_rgba_frame(frames@[j], fr.2, fr.0, fr.1));
            assert(frame_fits(bytes, t.from_frame + j, t.from_frame as int));
        }
        crate::half_block::lemma_uniform_readable(gs, cols, rows);
    }
    let cropped = crate::sprite::crop_frames_to_union(frames);
    Some(AnimatedSprite { frames: cropped, durations_ms: durations })
}

/// A tagged animation that could not be loaded.
#[derive(Debug)]
pub enum AsepriteError {
    /// The file is cut short or inconsistent, or holds something that would
    /// make the Aseprite reader panic (see `ase_scan` with tiles).
    Malformed,
    /// The file holds a tileset or tilemap cels; tilemaps are not read (see
    /// `ase_readable`).
    Tileset,
    /// The Aseprite reader refused the file.
    Parse,
    /// No tag has the name asked for.
    TagNotFound,
    /// The tag's frames do not exist or cannot be converted.
    BadTag,
}

/// Loads the animation tagged `tag_name` from the Aseprite file `aseprite`:
/// the frames of the first tag of that name, converted and cropped, with
/// their durations. It succeeds whenever the file is one the reader can be
/// handed (`ase_readable`), the reader reads it, the tag exists and its
/// frames do; a file that would make the reader panic is refused as
/// `Malformed`, one with tilesets as `Tileset`.
pub fn load_tag(aseprite: &[u8], tag_name: &str) -> (r: Result<AnimatedSprite, AsepriteError>)
    ensures
        match r {
            Ok(sp) => ase_readable(aseprite@) && aseprite_outline(aseprite@) is Some && exists|i: int|
                is_first_tag(outline_tags(aseprite@), tag_name@, i) && tag_ok(
                    aseprite@,
                    outline_frames(aseprite@),
                    #[trigger] outline_tags(aseprite@)[i],
                ) && tag_animation(aseprite@, outline_tags(aseprite@)[i], sp),
            Err(AsepriteError::Malformed) => !ase_scan(aseprite@, true),
            Err(AsepriteError::Tileset) => ase_scan(aseprite@, true) && !ase_readable(aseprite@),
            Err(AsepriteError::Parse) => ase_readable(aseprite@) && aseprite_outline(aseprite@) is None,
            Err(AsepriteError::TagNotFound) => ase_readable(aseprite@) && aseprite_outline(aseprite@) is Some
                && !has_tag(outline_tags(aseprite@), tag_name@),
            Err(AsepriteError::BadTag) => ase_readable(aseprite@) && aseprite_outline(aseprite@) is Some && exists|i: int|
                is_first_tag(outline_tags(aseprite@), tag_name@, i) && !tag_ok(
                    aseprite@,
                    outline_frames(aseprite@),
                    #[trigger] outline_tags(aseprite@)[i],
                ),
        },
{
    if !aseprite_readable(aseprite) {
        if scan_aseprite(aseprite, true) {
            return Err(AsepriteError::Tileset);
        }
        return Err(AsepriteError::Malformed);
    }
    let (file, tags, n) = match read_aseprite(aseprite) {
        Ok(x) => x,
        Err(_) => return Err(AsepriteError::Parse),
    };
    let i = match find_tag(&tags, tag_name) {
        Some(i) => i,
        None => return Err(AsepriteError::TagNotFound),
    };
    let ghost ts = tags@.map_values(|t: AseTag| tag_view(t));
    assert(ts[i as int] == tag_view(tags@[i as int]));
    assert(is_first_tag(ts, tag_name@, i as int));
    assert(outline_tags(aseprite@) == ts && outline_frames(aseprite@) == n);
    match tag_sprite(&file, n, &tags[i]) {
        Some(sp) => {
            assert(tag_ok(aseprite@, n, ts[i as int]) && tag_animation(aseprite@, ts[i as int], sp));
            Ok(sp)
        },
        None => {
            assert(!tag_ok(aseprite@, n, ts[i as int]));
            Err(AsepriteError::BadTag)
        },
    }
}

} // verus!
