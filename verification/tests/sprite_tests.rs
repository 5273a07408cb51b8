use scamp::aseprite::{aseprite_readable, find_tag, load_tag, AseTag, AsepriteError};
use scamp::raster::Pixels;
use scamp::sixel::encode_rgba;
use scamp::sprite::{crop_frames_to_union, frame_from_image, frame_from_rgba_bytes, load_animation_groups, load_frames, Frame, SpriteCell};
use scamp::setup::{detect_renderer, Renderer};
use scamp::text::{push_decimal, str_contains, str_equals};

fn png(w: u32, h: u32, f: impl Fn(u32, u32) -> [u8; 4]) -> Vec<u8> {
    let img = image::RgbaImage::from_fn(w, h, |x, y| image::Rgba(f(x, y)));
    let mut bytes = Vec::new();
    img.write_to(&mut std::io::Cursor::new(&mut bytes), image::ImageFormat::Png).unwrap();
    bytes
}

#[test]
fn frames_load_from_a_halved_sheet() {
    let bytes = png(64, 64, |_, _| [50, 60, 70, 255]);
    let frames = load_frames(&bytes, &vec![(0, 0), (32, 32)]).expect("loads");
    assert_eq!(frames.len(), 2);
    for f in &frames {
        assert_eq!((f.width_cells, f.height_cells), (16, 8));
        assert_eq!(f.cell_at(7, 15).fg, Some((50, 60, 70)));
    }
}

#[test]
fn frame_outside_the_sheet_is_transparent_and_groups_share_a_box() {
    let bytes = png(64, 32, |x, y| if x < 4 && y < 4 { [9, 9, 9, 255] } else { [0, 0, 0, 0] });
    let groups = load_animation_groups(&bytes, &vec![vec![(0, 0)], vec![(0, 0), (128, 0)]]).expect("loads");
    assert_eq!(groups.len(), 2);
    assert_eq!(groups[1].len(), 2);
    for g in &groups {
        for f in g {
            assert_eq!((f.width_cells, f.height_cells), (2, 1));
        }
    }
    assert!(groups[1][1].cells.iter().all(|c| c.transparent));
    assert!(!groups[0][0].cell_at(0, 0).transparent);
}

#[test]
fn loading_garbage_is_an_error() {
    assert!(load_frames(b"garbage", &vec![(0, 0)]).is_err());
    assert!(load_animation_groups(&[], &vec![]).is_err());
}

#[test]
fn whole_image_as_cells() {
    let img = Pixels { width: 2, height: 2, data: vec![1, 2, 3, 255, 0, 0, 0, 0, 4, 5, 6, 255, 0, 0, 0, 0] };
    let f = frame_from_image(&img);
    assert_eq!((f.width_cells, f.height_cells), (2, 1));
    assert_eq!(f.cell_at(0, 0).bg, Some((4, 5, 6)));
    assert!(f.cell_at(0, 1).transparent);
    let g = frame_from_rgba_bytes(&img.data, 2, 2);
    assert_eq!(g.cells.len(), 2);
    assert_eq!(g.cell_at(0, 0).fg, Some((1, 2, 3)));
}

#[test]
fn single_animation_crop() {
    let clear = SpriteCell { ch: ' ', fg: None, bg: None, transparent: true };
    let dot = SpriteCell { ch: 'o', fg: None, bg: None, transparent: false };
    let mut cells = vec![clear; 9];
    cells[4] = dot;
    let out = crop_frames_to_union(vec![Frame { width_cells: 3, height_cells: 3, cells }]);
    assert_eq!(out.len(), 1);
    assert_eq!((out[0].width_cells, out[0].height_cells), (1, 1));
    assert_eq!(out[0].cell_at(0, 0).ch, 'o');
    assert!(crop_frames_to_union(vec![]).is_empty());
}

#[test]
fn sixel_encoder_refuses_bad_sizes() {
    assert!(encode_rgba(&[], 0, 0).is_err());
    assert!(encode_rgba(&[255; 12], 2, 2).is_err());
    let s = encode_rgba(&[255; 16], 2, 2).expect("encodes");
    assert!(s.starts_with("\x1bP"));
}

#[test]
fn tags_are_found_by_first_name() {
    let tags = vec![
        AseTag { name: "idle".to_string(), from_frame: 0, to_frame: 1 },
        AseTag { name: "walk".to_string(), from_frame: 2, to_frame: 2 },
        AseTag { name: "idle".to_string(), from_frame: 2, to_frame: 2 },
    ];
    assert_eq!(find_tag(&tags, "idle"), Some(0));
    assert_eq!(find_tag(&tags, "walk"), Some(1));
    assert_eq!(find_tag(&tags, "run"), None);
    assert_eq!(find_tag(&vec![], "idle"), None);
}

#[test]
fn unreadable_aseprite_is_refused() {
    assert!(matches!(load_tag(b"not an aseprite file", "idle"), Err(AsepriteError::Malformed)));
}

#[test]
fn text_helpers() {
    let mut s = String::new();
    push_decimal(&mut s, 0);
    s.push(' ');
    push_decimal(&mut s, 42);
    s.push(' ');
    push_decimal(&mut s, 65535);
    assert_eq!(s, "0 42 65535");
    assert!(str_equals("abc", "abc"));
    assert!(!str_equals("abc", "abd"));
    assert!(str_contains("xterm-ghostty", "ghostty"));
    assert!(str_contains("abc", ""));
    assert!(!str_contains("ab", "abc"));
    assert_eq!(detect_renderer(Some("SiXeL"), false, None, None), Renderer::Sixel);
}

fn le16(out: &mut Vec<u8>, v: u16) {
    out.extend_from_slice(&v.to_le_bytes());
}

fn le32(out: &mut Vec<u8>, v: u32) {
    out.extend_from_slice(&v.to_le_bytes());
}

fn chunk(kind: u16, body: &[u8]) -> Vec<u8> {
    let mut c = Vec::new();
    le32(&mut c, body.len() as u32 + 6);
    le16(&mut c, kind);
    c.extend_from_slice(body);
    c
}

fn ase_string(out: &mut Vec<u8>, s: &str) {
    le16(out, s.len() as u16);
    out.extend_from_slice(s.as_bytes());
}

/// A 4x4 RGBA Aseprite file with one visible layer and two frames, each
/// holding one opaque pixel, tagged "idle" (frames 0..=1) and "broken"
/// (frames 0..=5, past the last frame).
fn tiny_aseprite() -> Vec<u8> {
    tiny_aseprite_with(0, 0)
}

/// A cel type standing for a compressed cel that declares two pixels but
/// inflates to one.
const SHORT_COMPRESSED: u16 = 202;

fn zlib(data: &[u8]) -> Vec<u8> {
    let mut enc = flate2::write::ZlibEncoder::new(Vec::new(), flate2::Compression::default());
    std::io::Write::write_all(&mut enc, data).unwrap();
    enc.finish().unwrap()
}

fn tiny_aseprite_with(child_level: u16, cel_type: u16) -> Vec<u8> {
    tiny_aseprite_linked(child_level, cel_type, 0)
}

/// `tiny_aseprite` with the layer nested at `child_level` and its cels of
/// type `cel_type`; a linked second cel points at frame `link_target`.
fn tiny_aseprite_linked(child_level: u16, cel_type: u16, link_target: u16) -> Vec<u8> {
    let mut file = Vec::new();
    le32(&mut file, 0);
    le16(&mut file, 0xA5E0);
    le16(&mut file, 2);
    le16(&mut file, 4);
    le16(&mut file, 4);
    le16(&mut file, 32);
    le32(&mut file, 1);
    le16(&mut file, 100);
    file.extend_from_slice(&[0u8; 8]);
    file.extend_from_slice(&[0u8; 4]);
    le16(&mut file, 0);
    file.extend_from_slice(&[1u8, 1u8]);
    file.extend_from_slice(&[0u8; 8]);
    file.extend_from_slice(&[0u8; 84]);
    assert_eq!(file.len(), 128);

    let frame_specs: [(u16, i16, i16, [u8; 4]); 2] = [(100, 1, 1, [200, 10, 20, 255]), (150, 2, 2, [5, 6, 7, 255])];
    for (index, (duration, x, y, px)) in frame_specs.iter().enumerate() {
        let mut chunks = Vec::new();
        if index == 0 {
            let mut layer = Vec::new();
            le16(&mut layer, 1);
            le16(&mut layer, 0);
            le16(&mut layer, child_level);
            le16(&mut layer, 0);
            le16(&mut layer, 0);
            le16(&mut layer, 0);
            layer.push(255);
            layer.extend_from_slice(&[0u8; 3]);
            ase_string(&mut layer, "body");
            chunks.push(chunk(0x2004, &layer));

            let mut tags = Vec::new();
            le16(&mut tags, 2);
            tags.extend_from_slice(&[0u8; 8]);
            for (name, from, to) in [("idle", 0u16, 1u16), ("broken", 0, 5)] {
                le16(&mut tags, from);
                le16(&mut tags, to);
                tags.push(0);
                le16(&mut tags, 0);
                tags.extend_from_slice(&[0u8; 6]);
                le32(&mut tags, 0);
                ase_string(&mut tags, name);
            }
            chunks.push(chunk(0x2018, &tags));
        }
        let mut cel = Vec::new();
        le16(&mut cel, 0);
        le16(&mut cel, *x as u16);
        le16(&mut cel, *y as u16);
        cel.push(255);
        le16(&mut cel, if cel_type == SHORT_COMPRESSED { 2 } else { cel_type });
        cel.extend_from_slice(&[0u8; 7]);
        if cel_type == 1 {
            // Linked: frame 1 shows frame 0's cel; `link_target` names the frame.
            le16(&mut cel, if index == 0 { 0 } else { link_target });
        } else {
            le16(&mut cel, if cel_type == SHORT_COMPRESSED { 2 } else { 1 });
            le16(&mut cel, 1);
            if cel_type == 2 || cel_type == SHORT_COMPRESSED {
                cel.extend_from_slice(&zlib(px));
            } else {
                cel.extend_from_slice(px);
            }
        }
        if cel_type == 1 && index == 0 {
            // The linked file's first frame holds a plain cel.
            cel.truncate(9);
            cel[7] = 0;
            cel.extend_from_slice(&[0u8; 7]);
            le16(&mut cel, 1);
            le16(&mut cel, 1);
            cel.extend_from_slice(px);
        }
        chunks.push(chunk(0x2005, &cel));

        let body: Vec<u8> = chunks.concat();
        le32(&mut file, body.len() as u32 + 16);
        le16(&mut file, 0xF1FA);
        le16(&mut file, chunks.len() as u16);
        le16(&mut file, *duration);
        le16(&mut file, 0);
        le32(&mut file, chunks.len() as u32);
        file.extend_from_slice(&body);
    }
    file
}

#[test]
fn aseprite_tag_loads_cropped_frames_and_durations() {
    let sp = load_tag(&tiny_aseprite(), "idle").expect("tag loads");
    assert_eq!(sp.durations_ms, vec![100, 150]);
    assert_eq!(sp.frames.len(), 2);
    for f in &sp.frames {
        assert_eq!((f.width_cells, f.height_cells), (2, 2));
    }
    let first = sp.frames[0].cell_at(0, 0);
    assert_eq!((first.ch, first.fg, first.bg), ('\u{2584}', Some((200, 10, 20)), None));
    assert!(sp.frames[0].cell_at(1, 1).transparent);
    let second = sp.frames[1].cell_at(1, 1);
    assert_eq!((second.ch, second.fg, second.bg), ('\u{2580}', Some((5, 6, 7)), None));
    assert!(sp.frames[1].cell_at(0, 0).transparent);
}

#[test]
fn aseprite_missing_tag_and_out_of_range_tag() {
    let bytes = tiny_aseprite();
    assert!(matches!(load_tag(&bytes, "run"), Err(AsepriteError::TagNotFound)));
    assert!(matches!(load_tag(&bytes, "broken"), Err(AsepriteError::BadTag)));
}

#[test]
fn aseprite_refused_by_the_reader_is_a_parse_error() {
    let mut bytes = tiny_aseprite();
    bytes[34] = 2;
    assert!(matches!(load_tag(&bytes, "idle"), Err(AsepriteError::Parse)));
}

fn cells_of(f: &Frame) -> Vec<(char, Option<(u8, u8, u8)>, Option<(u8, u8, u8)>, bool)> {
    f.cells.iter().map(|c| (c.ch, c.fg, c.bg, c.transparent)).collect()
}

#[test]
fn compressed_cels_load_like_plain_ones() {
    let plain = load_tag(&tiny_aseprite(), "idle").expect("plain cels load");
    let packed = load_tag(&tiny_aseprite_with(0, 2), "idle").expect("compressed cels load");
    assert_eq!(packed.durations_ms, plain.durations_ms);
    assert_eq!(packed.frames.len(), plain.frames.len());
    for (a, b) in packed.frames.iter().zip(plain.frames.iter()) {
        assert_eq!((a.width_cells, a.height_cells), (b.width_cells, b.height_cells));
        assert_eq!(cells_of(a), cells_of(b));
    }
}

#[test]
fn linked_cels_show_the_cel_they_point_at() {
    let sp = load_tag(&tiny_aseprite_linked(0, 1, 0), "idle").expect("linked cels load");
    assert_eq!(sp.frames.len(), 2);
    assert_eq!(cells_of(&sp.frames[0]), cells_of(&sp.frames[1]));
}

#[test]
fn aseprite_that_would_make_the_reader_panic_is_refused_before_reading() {
    assert!(aseprite_readable(&tiny_aseprite()));
    assert!(aseprite_readable(&tiny_aseprite_with(0, 2)));
    // A first layer nested under no parent.
    assert!(!aseprite_readable(&tiny_aseprite_with(1, 0)));
    assert!(matches!(load_tag(&tiny_aseprite_with(1, 0), "idle"), Err(AsepriteError::Malformed)));
    // A compressed cel that inflates to fewer pixels than it declares.
    assert!(matches!(load_tag(&tiny_aseprite_with(0, SHORT_COMPRESSED), "idle"), Err(AsepriteError::Malformed)));
    // A linked cel pointing past the last frame.
    assert!(matches!(load_tag(&tiny_aseprite_linked(0, 1, 9), "idle"), Err(AsepriteError::Malformed)));
    let mut truncated = tiny_aseprite();
    truncated.truncate(truncated.len() - 1);
    assert!(matches!(load_tag(&truncated, "idle"), Err(AsepriteError::Malformed)));
}

#[test]
fn compressed_cel_data_the_reader_cannot_inflate_is_a_parse_error() {
    let mut bytes = tiny_aseprite_with(0, 2);
    // Break the first cel's zlib header (the cel's data starts after the
    // frame header, the layer and tags chunks and the cel's own 26 bytes).
    let pos = bytes.windows(2).position(|w| w == [0x78, 0x9c]).expect("zlib header");
    bytes[pos] = 0;
    assert!(aseprite_readable(&bytes));
    assert!(matches!(load_tag(&bytes, "idle"), Err(AsepriteError::Parse)));
}

#[test]
fn aseprite_with_a_tileset_is_refused_as_such() {
    let mut bytes = tiny_aseprite();
    // Append a tileset chunk to the first frame: grow the frame's size and
    // its two chunk counts.
    let tileset = chunk(0x2023, &[0u8; 40]);
    let frame = 128;
    let size = u32::from_le_bytes([bytes[frame], bytes[frame + 1], bytes[frame + 2], bytes[frame + 3]]);
    let end = frame + size as usize;
    bytes.splice(end..end, tileset.iter().copied());
    bytes[frame..frame + 4].copy_from_slice(&(size + tileset.len() as u32).to_le_bytes());
    bytes[frame + 6] += 1;
    bytes[frame + 12] += 1;
    assert!(!aseprite_readable(&bytes));
    assert!(matches!(load_tag(&bytes, "idle"), Err(AsepriteError::Tileset)));
}
