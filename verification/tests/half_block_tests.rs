use scamp::half_block::{crop_frames_to_union, frame_from_rgba_bytes, write_frame, HbCell, HbFrame};

fn cell(ch: char, fg: Option<(u8, u8, u8)>, bg: Option<(u8, u8, u8)>, transparent: bool) -> HbCell {
    HbCell { ch, fg, bg, transparent }
}

fn clear() -> HbCell {
    cell(' ', None, None, true)
}

fn solid() -> HbCell {
    cell('\u{2580}', Some((1, 2, 3)), Some((4, 5, 6)), false)
}

fn frame(w: u16, h: u16, cells: Vec<HbCell>) -> HbFrame {
    HbFrame { width_cells: w, height_cells: h, cells }
}

#[test]
fn half_block_glyphs_follow_visible_pixels() {
    // A 2 x 4 image: column 0 top-only, column 1 both; second cell row: bottom-only, none.
    let mut data = vec![0u8; 2 * 4 * 4];
    let mut set = |x: usize, y: usize, px: [u8; 4]| {
        let i = (y * 2 + x) * 4;
        data[i..i + 4].copy_from_slice(&px);
    };
    set(0, 0, [10, 20, 30, 255]);
    set(1, 0, [1, 1, 1, 200]);
    set(1, 1, [2, 2, 2, 128]);
    set(0, 3, [7, 8, 9, 255]);
    set(1, 2, [5, 5, 5, 127]);
    let f = frame_from_rgba_bytes(&data, 2, 4);
    assert_eq!((f.width_cells, f.height_cells), (2, 2));
    let c = f.cell_at(0, 0);
    assert_eq!((c.ch, c.fg, c.bg, c.transparent), ('\u{2580}', Some((10, 20, 30)), None, false));
    let c = f.cell_at(0, 1);
    assert_eq!((c.ch, c.fg, c.bg, c.transparent), ('\u{2580}', Some((1, 1, 1)), Some((2, 2, 2)), false));
    let c = f.cell_at(1, 0);
    assert_eq!((c.ch, c.fg, c.bg, c.transparent), ('\u{2584}', Some((7, 8, 9)), None, false));
    let c = f.cell_at(1, 1);
    assert_eq!((c.ch, c.fg, c.bg, c.transparent), (' ', None, None, true));
}

#[test]
fn odd_height_drops_the_last_pixel_row() {
    let data = vec![255u8; 3 * 3 * 4];
    let f = frame_from_rgba_bytes(&data, 3, 3);
    assert_eq!((f.width_cells, f.height_cells), (3, 1));
    assert_eq!(f.cells.len(), 3);
}

#[test]
fn crop_trims_padding_to_shared_box() {
    // Two 4 x 3 frames: visible cells at (1,1) in one and (2,2) in the other.
    let mut a = vec![clear(); 12];
    a[1 * 4 + 1] = solid();
    let mut b = vec![clear(); 12];
    b[2 * 4 + 2] = cell('x', None, None, false);
    let groups = vec![vec![frame(4, 3, a)], vec![frame(4, 3, b)]];
    let out = crop_frames_to_union(groups);
    assert_eq!(out.len(), 2);
    for g in &out {
        assert_eq!(g.len(), 1);
        assert_eq!((g[0].width_cells, g[0].height_cells), (2, 2));
    }
    assert_eq!(out[0][0].cell_at(0, 0).ch, '\u{2580}');
    assert!(out[0][0].cell_at(1, 1).transparent);
    assert_eq!(out[1][0].cell_at(1, 1).ch, 'x');
    assert!(out[1][0].cell_at(0, 0).transparent);
}

#[test]
fn crop_keeps_frames_when_nothing_is_visible() {
    let groups = vec![vec![frame(3, 2, vec![clear(); 6]), frame(3, 2, vec![clear(); 6])]];
    let out = crop_frames_to_union(groups);
    assert_eq!(out.len(), 1);
    assert_eq!(out[0].len(), 2);
    assert_eq!((out[0][1].width_cells, out[0][1].height_cells), (3, 2));
}

#[test]
fn crop_of_empty_groups_is_unchanged() {
    let groups: Vec<Vec<HbFrame>> = vec![vec![], vec![]];
    let out = crop_frames_to_union(groups);
    assert_eq!(out.len(), 2);
    assert!(out.iter().all(|g| g.is_empty()));
}

#[test]
fn crop_uses_first_nonempty_group_for_the_window() {
    let mut a = vec![clear(); 6];
    a[5] = solid();
    let groups = vec![vec![], vec![frame(3, 2, a)]];
    let out = crop_frames_to_union(groups);
    assert!(out[0].is_empty());
    assert_eq!((out[1][0].width_cells, out[1][0].height_cells), (1, 1));
    assert_eq!(out[1][0].cells.len(), 1);
}

#[test]
fn write_frame_emits_cursor_and_colour_changes_only() {
    let f = frame(2, 1, vec![cell('\u{2580}', Some((1, 2, 3)), None, false), solid()]);
    let mut buf = String::from("x");
    write_frame(&mut buf, &f, 2, 4, 24, 80);
    assert_eq!(buf, "x\x1b[0m\x1b[3;5H\x1b[38;2;1;2;3m\u{2580}\x1b[48;2;4;5;6m\u{2580}");
}

#[test]
fn write_frame_clips_at_screen_edge() {
    let f = frame(2, 1, vec![cell('\u{2580}', Some((1, 2, 3)), None, false), solid()]);
    let mut buf = String::new();
    write_frame(&mut buf, &f, 2, 4, 24, 5);
    assert_eq!(buf, "\x1b[0m\x1b[3;5H\x1b[38;2;1;2;3m\u{2580}");
}

#[test]
fn write_frame_repositions_after_a_gap_and_on_each_row() {
    let f = frame(
        3,
        2,
        vec![solid(), clear(), solid(), solid(), solid(), clear()],
    );
    let mut buf = String::new();
    write_frame(&mut buf, &f, 0, 0, 10, 10);
    assert_eq!(
        buf,
        "\x1b[0m\x1b[1;1H\x1b[38;2;1;2;3m\x1b[48;2;4;5;6m\u{2580}\x1b[1;3H\u{2580}\x1b[2;1H\u{2580}\u{2580}"
    );
}

#[test]
fn write_frame_of_transparent_frame_only_resets() {
    let f = frame(2, 2, vec![clear(); 4]);
    let mut buf = String::new();
    write_frame(&mut buf, &f, 0, 0, 10, 10);
    assert_eq!(buf, "\x1b[0m");
}

#[test]
fn write_frame_resets_colour_to_default() {
    let f = frame(2, 1, vec![solid(), cell('\u{2584}', None, None, false)]);
    let mut buf = String::new();
    write_frame(&mut buf, &f, 0, 0, 10, 10);
    assert_eq!(buf, "\x1b[0m\x1b[1;1H\x1b[38;2;1;2;3m\x1b[48;2;4;5;6m\u{2580}\x1b[39m\x1b[49m\u{2584}");
}

#[test]
fn cropping_twice_changes_nothing() {
    let mut a = vec![clear(); 20];
    a[1 * 5 + 1] = solid();
    a[2 * 5 + 3] = cell('y', None, None, false);
    let once = crop_frames_to_union(vec![vec![frame(5, 4, a)]]);
    let (w, h) = (once[0][0].width_cells, once[0][0].height_cells);
    let cells: Vec<(char, bool)> = once[0][0].cells.iter().map(|c| (c.ch, c.transparent)).collect();
    let twice = crop_frames_to_union(once);
    assert_eq!((twice[0][0].width_cells, twice[0][0].height_cells), (w, h));
    let again: Vec<(char, bool)> = twice[0][0].cells.iter().map(|c| (c.ch, c.transparent)).collect();
    assert_eq!(cells, again);
}

#[test]
fn cropped_edges_hold_visible_cells() {
    let mut a = vec![clear(); 25];
    a[1 * 5 + 2] = solid();
    let mut b = vec![clear(); 25];
    b[3 * 5 + 1] = solid();
    b[2 * 5 + 3] = solid();
    let out = crop_frames_to_union(vec![vec![frame(5, 5, a), frame(5, 5, b)]]);
    let (w, h) = (out[0][0].width_cells, out[0][0].height_cells);
    assert_eq!((w, h), (3, 3));
    let visible = |f: &HbFrame, r: u16, c: u16| !f.cell_at(r, c).transparent;
    let any = |test: &dyn Fn(&HbFrame) -> bool| out[0].iter().any(|f| test(f));
    assert!(any(&|f| (0..h).any(|r| visible(f, r, 0))));
    assert!(any(&|f| (0..h).any(|r| visible(f, r, w - 1))));
    assert!(any(&|f| (0..w).any(|c| visible(f, 0, c))));
    assert!(any(&|f| (0..w).any(|c| visible(f, h - 1, c))));
}
