use scamp::half_block::{HbCell, HbFrame};
use scamp::pet::{erase_pet, frame_due, render_pet, render_ready, Anim, Pet, Wander, ANIM_COUNT};
use scamp::screen::Screen;

fn sixel_anims() -> Vec<Anim> {
    let counts = [8usize, 8, 8, 4, 4, 1, 8, 1, 1, 1, 7, 8];
    (0..ANIM_COUNT)
        .map(|a| Anim::Sixel {
            sixels: (0..counts[a]).map(|k| format!("s{}-{}", a, k)).collect(),
            durations_ms: vec![250; counts[a]],
        })
        .collect()
}

fn idle_poses() -> [usize; 4] {
    [0, 6, 10, 11]
}

#[test]
fn new_pet_sits_in_bottom_right_corner() {
    let p = Pet::new(24, 80, sixel_anims(), 8, 4);
    assert_eq!((p.row, p.col), (18, 72));
    assert_eq!(p.anim_index(), 0);
    assert_eq!(p.current_frame, 0);
    assert_eq!(p.current_sixel(), "s0-0");
    assert!(p.last_drawn.is_none());
    assert_eq!((p.cell_w, p.cell_h), (8, 4));
    match p.current_anim() {
        Anim::Sixel { sixels, .. } => assert_eq!(sixels.len(), 8),
        Anim::HalfBlock { .. } => panic!("expected a sixel animation"),
    }
}

#[test]
fn new_pet_on_tiny_screen_stays_at_origin() {
    let p = Pet::new(3, 5, sixel_anims(), 8, 4);
    assert_eq!((p.row, p.col), (0, 0));
}

#[test]
fn first_tick_settles_in_place() {
    let mut p = Pet::new(24, 80, sixel_anims(), 8, 4);
    p.tick();
    assert_eq!((p.row, p.col), (18, 72));
    assert!(idle_poses().contains(&p.anim_index()));
    // The rest after arriving lasts at least 20 ticks.
    for _ in 0..19 {
        p.tick();
        assert_eq!((p.row, p.col), (18, 72));
    }
}

#[test]
fn pet_walks_one_cell_per_tick_columns_first() {
    let mut p = Pet::new(24, 80, sixel_anims(), 8, 4);
    let mut prev = (p.row, p.col);
    let mut walking_rows = false;
    for _ in 0..3000 {
        p.tick();
        let now = (p.row, p.col);
        let dr = now.0 as i32 - prev.0 as i32;
        let dc = now.1 as i32 - prev.1 as i32;
        assert!(dr.abs() + dc.abs() <= 1);
        match (dr, dc) {
            (0, 1) => assert_eq!(p.anim_index(), 1),
            (0, -1) => assert_eq!(p.anim_index(), 2),
            (-1, 0) => assert_eq!(p.anim_index(), 3),
            (1, 0) => assert_eq!(p.anim_index(), 4),
            _ => {}
        }
        if dr != 0 {
            walking_rows = true;
        }
        if dc != 0 {
            // A column step never follows a row step within one trip.
            assert!(!walking_rows);
        }
        if dr == 0 && dc == 0 && idle_poses().contains(&p.anim_index()) {
            walking_rows = false;
        }
        assert!(now.0 < 24 && now.1 < 80);
        assert!(p.anim_index() < ANIM_COUNT);
        prev = now;
    }
}

#[test]
fn first_render_draws_the_sprite() {
    let mut p = Pet::new(24, 80, sixel_anims(), 8, 4);
    let s = Screen::new(80, 24);
    let out = render_pet(&mut p, &s).expect("first render draws");
    assert_eq!(out, "\x1b7\x1b[?25l\x1b[19;73Hs0-0\x1b[0m\x1b8\x1b[?25h");
    assert_eq!(p.last_drawn, Some((18, 72, 0, 0)));
    assert_eq!(p.last_render_scroll, 0);
}

#[test]
fn second_render_without_change_draws_nothing() {
    let mut p = Pet::new(24, 80, sixel_anims(), 8, 4);
    let s = Screen::new(80, 24);
    assert!(render_pet(&mut p, &s).is_some());
    assert!(render_pet(&mut p, &s).is_none());
}

#[test]
fn render_repaints_the_old_position() {
    let mut p = Pet::new(6, 10, sixel_anims(), 2, 1);
    let mut s = Screen::new(10, 6);
    assert_eq!((p.row, p.col), (3, 8));
    assert!(render_pet(&mut p, &s).is_some());
    s.csi_dispatch(&vec![vec![4], vec![9]], b"", false, 'H');
    s.print('q');
    p.col = 7;
    let out = render_pet(&mut p, &s).expect("moved pet redraws");
    let expected = "\x1b7\x1b[?25l\x1b[4;9H\x1b[0mq\x1b[4;10H\x1b[0m \x1b[4;8Hs0-0\x1b[0m\x1b8\x1b[?25h";
    assert_eq!(out, expected);
}

#[test]
fn scrolled_output_forces_a_redraw() {
    let mut p = Pet::new(6, 10, sixel_anims(), 2, 1);
    let mut s = Screen::new(10, 6);
    assert!(render_pet(&mut p, &s).is_some());
    for _ in 0..7 {
        s.execute(b'\n');
    }
    assert_eq!(s.scroll_count, 2);
    let out = render_pet(&mut p, &s).expect("scroll redraws");
    // The old position is repainted from two rows above it down.
    assert!(out.starts_with("\x1b7\x1b[?25l\x1b[2;9H\x1b[0m \x1b[2;10H\x1b[0m \x1b[3;9H"));
    assert_eq!(p.last_render_scroll, 2);
    assert!(render_pet(&mut p, &s).is_none());
}

#[test]
fn alternate_screen_pauses_rendering() {
    let mut p = Pet::new(24, 80, sixel_anims(), 8, 4);
    let mut s = Screen::new(80, 24);
    assert!(render_pet(&mut p, &s).is_some());
    s.csi_dispatch(&vec![vec![1049]], b"?", false, 'h');
    assert!(render_pet(&mut p, &s).is_none());
    assert!(p.last_drawn.is_none());
    assert!(p.was_alt_screen);
    s.csi_dispatch(&vec![vec![1049]], b"?", false, 'l');
    let out = render_pet(&mut p, &s).expect("drawn again after leaving");
    assert_eq!(out, "\x1b7\x1b[?25l\x1b[19;73Hs0-0\x1b[0m\x1b8\x1b[?25h");
    assert!(!p.was_alt_screen);
}

#[test]
fn half_block_animation_renders_cells() {
    let cell = HbCell { ch: '\u{2580}', fg: Some((9, 9, 9)), bg: None, transparent: false };
    let frame = HbFrame { width_cells: 1, height_cells: 1, cells: vec![cell] };
    let anims: Vec<Anim> = (0..ANIM_COUNT)
        .map(|_| Anim::HalfBlock {
            frames: vec![HbFrame { width_cells: 1, height_cells: 1, cells: vec![cell] }],
            durations_ms: vec![100],
        })
        .collect();
    let _ = frame;
    let mut p = Pet::new(5, 5, anims, 1, 1);
    let s = Screen::new(5, 5);
    let out = render_pet(&mut p, &s).expect("draws");
    assert_eq!(out, "\x1b7\x1b[?25l\x1b[0m\x1b[3;5H\x1b[38;2;9;9;9m\u{2580}\x1b[0m\x1b8\x1b[?25h");
}

#[test]
fn erasing_blanks_the_last_drawn_area() {
    let mut p = Pet::new(24, 80, sixel_anims(), 3, 2);
    assert_eq!(erase_pet(&p), None);
    let screen = Screen::new(80, 24);
    render_pet(&mut p, &screen).expect("first render draws");
    assert_eq!(p.last_drawn.map(|d| (d.0, d.1)), Some((20, 77)));
    assert_eq!(
        erase_pet(&p).as_deref(),
        Some("\x1b[21;78H\x1b[0m   \x1b[22;78H\x1b[0m   ")
    );
}

#[test]
fn frames_last_their_duration_but_at_least_fifty_ms() {
    assert!(!frame_due(49, 10));
    assert!(frame_due(50, 10));
    assert!(frame_due(50, 0));
    assert!(!frame_due(99, 100));
    assert!(frame_due(100, 100));
    assert!(frame_due(u128::MAX, u32::MAX));
}

#[test]
fn ticking_keeps_the_pet_on_screen_and_its_frame_in_range() {
    let counts = [8usize, 8, 8, 4, 4, 1, 8, 1, 1, 1, 7, 8];
    let mut p = Pet::new(30, 100, sixel_anims(), 8, 4);
    for _ in 0..3000 {
        assert!(p.can_tick());
        p.tick();
        assert!(p.current_frame < counts[p.anim_index()]);
        assert!(p.row <= 30 - 4 && p.col <= 100 - 8);
        let _ = p.current_sixel();
    }
}

#[test]
fn a_pet_with_an_empty_animation_cannot_tick() {
    let mut anims = sixel_anims();
    anims[0] = Anim::Sixel { sixels: vec![], durations_ms: vec![] };
    let p = Pet::new(24, 80, anims, 8, 4);
    assert!(!p.can_tick());
    assert!(Pet::new(24, 80, sixel_anims(), 8, 4).can_tick());
}

#[test]
fn finishing_a_tick_uses_the_elapsed_time_and_the_choices_given() {
    let anims: Vec<Anim> = (0..ANIM_COUNT)
        .map(|a| Anim::Sixel { sixels: vec![format!("f{}-0", a), format!("f{}-1", a)], durations_ms: vec![10, 10] })
        .collect();
    let mut p = Pet::new(24, 80, anims, 8, 4);
    let w = Wander { idle_pick: 1, sleep_pick: 2, target_row: 3, target_col: 4, pause_ticks: 20 };
    // At its spot with no rest left, the pet settles with the choices given.
    p.finish_tick(0, w);
    assert_eq!(p.anim_index(), 6);
    assert_eq!(p.current_frame, 0);
    // Resting: a frame meant for 10 ms stays at least 50 ms.
    p.finish_tick(49, w);
    assert_eq!(p.current_frame, 0);
    p.finish_tick(50, w);
    assert_eq!(p.current_frame, 1);
    p.finish_tick(1000, w);
    assert_eq!(p.current_frame, 0);
    assert_eq!((p.row, p.col), (18, 72));
}

#[test]
fn render_readiness_matches_what_rendering_needs() {
    let screen = Screen::new(80, 24);
    let mut p = Pet::new(24, 80, sixel_anims(), 8, 4);
    assert!(render_ready(&p, &screen));
    p.current_frame = 99;
    assert!(!render_ready(&p, &screen));
    p.current_frame = 0;
    p.last_drawn = Some((0, u16::MAX, 0, 0));
    assert!(!render_ready(&p, &screen));
    p.last_drawn = None;
    render_pet(&mut p, &screen).expect("draws");
    // Nothing to draw: nothing to check.
    p.current_frame = 0;
    assert!(render_ready(&p, &screen));
}
