use scamp::pet::{Anim, ANIM_COUNT};
use scamp::raster::{crop_imm, Pixels};
use scamp::setup::{
    build_animations, build_halfblock, build_sixel, detect_renderer, pick_sheet, sheet_for_choice,
    BuildError, Renderer, Sheet,
};

const COUNTS: [usize; 12] = [8, 8, 8, 4, 4, 1, 8, 1, 1, 1, 7, 8];
const DURATIONS: [u32; 12] = [250, 100, 100, 100, 100, 1000, 250, 1000, 1000, 1000, 250, 250];

fn sheet(fill: [u8; 4]) -> Pixels {
    let (w, h) = (256u32, 1312u32);
    let mut data = Vec::with_capacity((w * h * 4) as usize);
    for _ in 0..w * h {
        data.extend_from_slice(&fill);
    }
    Pixels { width: w, height: h, data }
}

#[test]
fn forced_renderer_wins_case_insensitively() {
    assert_eq!(detect_renderer(Some("SIXEL"), false, None, None), Renderer::Sixel);
    assert_eq!(detect_renderer(Some("Half-Block"), true, None, None), Renderer::HalfBlock);
    assert_eq!(detect_renderer(Some("halfblock"), true, None, None), Renderer::HalfBlock);
    assert_eq!(detect_renderer(Some("half_block"), true, None, None), Renderer::HalfBlock);
    assert_eq!(detect_renderer(Some("fallback"), true, None, None), Renderer::HalfBlock);
}

#[test]
fn unknown_forced_name_falls_through() {
    assert_eq!(detect_renderer(Some("bogus"), true, None, None), Renderer::Sixel);
    assert_eq!(detect_renderer(Some("bogus"), false, None, None), Renderer::HalfBlock);
}

#[test]
fn sixel_terminals_are_detected() {
    assert_eq!(detect_renderer(None, true, None, None), Renderer::Sixel);
    for tp in ["WezTerm", "iTerm.app", "ghostty", "Konsole", "mlterm"] {
        assert_eq!(detect_renderer(None, false, Some(tp), None), Renderer::Sixel);
    }
    assert_eq!(detect_renderer(None, false, Some("vscode"), None), Renderer::HalfBlock);
    assert_eq!(detect_renderer(None, false, Some("wezterm"), None), Renderer::HalfBlock);
    for t in ["foot", "foot-extra", "contour", "xterm-ghostty", "mlterm-256color"] {
        assert_eq!(detect_renderer(None, false, None, Some(t)), Renderer::Sixel);
    }
    assert_eq!(detect_renderer(None, false, None, Some("xterm-256color")), Renderer::HalfBlock);
}

#[test]
fn kitty_gets_the_half_block_fallback() {
    assert_eq!(detect_renderer(None, false, None, Some("xterm-kitty")), Renderer::HalfBlock);
}

#[test]
fn cats_by_name() {
    assert_eq!(sheet_for_choice(Some("gray")), Some(Sheet::Gray));
    assert_eq!(sheet_for_choice(Some("grey")), Some(Sheet::Gray));
    assert_eq!(sheet_for_choice(Some("ginger")), Some(Sheet::Ginger));
    assert_eq!(sheet_for_choice(Some("orange")), Some(Sheet::Ginger));
    assert_eq!(sheet_for_choice(Some("tabby")), Some(Sheet::Ginger));
    assert_eq!(sheet_for_choice(Some("white")), Some(Sheet::White));
    assert_eq!(sheet_for_choice(Some("black")), None);
    assert_eq!(sheet_for_choice(None), None);
    assert_eq!(pick_sheet(Some("white")), Sheet::White);
    assert_eq!(Sheet::Ginger.name(), "ginger");
    let any = pick_sheet(None);
    assert!(matches!(any, Sheet::Gray | Sheet::Ginger | Sheet::White));
}

#[test]
fn half_block_animations_of_an_opaque_sheet() {
    let img = sheet([10, 20, 30, 255]);
    let (anims, w, h) = build_halfblock(&img);
    assert_eq!(anims.len(), ANIM_COUNT);
    assert_eq!((w, h), (16, 8));
    for (a, anim) in anims.iter().enumerate() {
        match anim {
            Anim::HalfBlock { frames, durations_ms } => {
                assert_eq!(frames.len(), COUNTS[a]);
                assert_eq!(durations_ms, &vec![DURATIONS[a]; COUNTS[a]]);
                for f in frames {
                    assert_eq!((f.width_cells, f.height_cells), (16, 8));
                    let c = f.cell_at(0, 0);
                    assert_eq!((c.ch, c.fg, c.bg), ('\u{2580}', Some((10, 20, 30)), Some((10, 20, 30))));
                }
            }
            Anim::Sixel { .. } => panic!("expected half-block"),
        }
    }
}

#[test]
fn half_block_animations_are_cropped_together() {
    let mut img = sheet([0, 0, 0, 0]);
    // One opaque 4 x 4 pixel square inside the first wash frame.
    for y in 1160u32..1164 {
        for x in 8u32..12 {
            let i = ((y * 256 + x) * 4) as usize;
            img.data[i..i + 4].copy_from_slice(&[200, 100, 50, 255]);
        }
    }
    let (anims, w, h) = build_halfblock(&img);
    assert!(w < 16 && h < 8);
    for anim in &anims {
        if let Anim::HalfBlock { frames, .. } = anim {
            for f in frames {
                assert_eq!((f.width_cells, f.height_cells), (w, h));
            }
        }
    }
}

#[test]
fn sixel_animations_of_an_opaque_sheet() {
    let img = sheet([255, 255, 255, 255]);
    let (anims, w, h) = build_sixel(&img).expect("sheet encodes");
    assert_eq!((w, h), (8, 4));
    assert_eq!(anims.len(), ANIM_COUNT);
    for (a, anim) in anims.iter().enumerate() {
        match anim {
            Anim::Sixel { sixels, durations_ms } => {
                assert_eq!(sixels.len(), COUNTS[a]);
                assert_eq!(durations_ms, &vec![DURATIONS[a]; COUNTS[a]]);
                assert!(sixels.iter().all(|s| s.starts_with("\x1bP")));
            }
            Anim::HalfBlock { .. } => panic!("expected sixel"),
        }
    }
}

#[test]
fn undecodable_sheet_is_an_error() {
    assert!(matches!(build_animations(Renderer::HalfBlock, b"not an image"), Err(BuildError::Decode)));
    assert!(matches!(build_animations(Renderer::Sixel, &[]), Err(BuildError::Decode)));
    assert!(matches!(build_animations(Renderer::HalfBlock, b"\x89PNG broken"), Err(BuildError::Decode)));
}

#[test]
fn encoded_sheet_builds_animations() {
    let img = image::RgbaImage::from_pixel(256, 1312, image::Rgba([1, 2, 3, 255]));
    let mut bytes = Vec::new();
    img.write_to(&mut std::io::Cursor::new(&mut bytes), image::ImageFormat::Png).unwrap();
    let (anims, w, h) = build_animations(Renderer::HalfBlock, &bytes).expect("builds");
    assert_eq!((anims.len(), w, h), (12, 16, 8));
}

#[test]
fn crop_window_is_clamped_to_the_image() {
    let mut data = Vec::new();
    for i in 0..16u8 {
        data.extend_from_slice(&[i, i, i, 255]);
    }
    let img = Pixels { width: 4, height: 4, data };
    let c = crop_imm(&img, 2, 3, 5, 5);
    assert_eq!((c.width, c.height), (2, 1));
    assert_eq!(c.data, vec![14, 14, 14, 255, 15, 15, 15, 255]);
    let e = crop_imm(&img, 9, 9, 2, 2);
    assert_eq!((e.width, e.height, e.data.len()), (0, 0, 0));
}

