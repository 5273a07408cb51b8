use scamp::screen::{dump_to_string, first_param, Cell, Screen};

fn print_str(s: &mut Screen, text: &str) {
    for ch in text.chars() {
        s.print(ch);
    }
}

#[test]
fn new_screen_is_blank() {
    let s = Screen::new(4, 2);
    assert_eq!(dump_to_string(&s), "    \n    \n");
    assert_eq!((s.cursor_row, s.cursor_col, s.scroll_count, s.alt_screen), (0, 0, 0, false));
    assert_eq!(Cell::default().ch, ' ');
}

#[test]
fn printed_text_reads_back() {
    let mut s = Screen::new(4, 2);
    print_str(&mut s, "ab");
    assert_eq!(s.cell_at(0, 0).ch, 'a');
    assert_eq!(s.cell_at(0, 1).ch, 'b');
    assert_eq!(s.cursor_col, 2);
    assert_eq!(dump_to_string(&s), "ab  \n    \n");
}

#[test]
fn cell_outside_the_grid_is_blank() {
    let s = Screen::new(4, 2);
    assert_eq!(s.cell_at(2, 0).ch, ' ');
    assert_eq!(s.cell_at(0, 9).ch, ' ');
}

#[test]
fn printing_past_the_last_column_wraps() {
    let mut s = Screen::new(4, 2);
    print_str(&mut s, "abcde");
    assert_eq!(dump_to_string(&s), "abcd\ne   \n");
    assert_eq!((s.cursor_row, s.cursor_col), (1, 1));
}

#[test]
fn printing_past_the_last_row_scrolls() {
    let mut s = Screen::new(4, 2);
    print_str(&mut s, "abcdefghi");
    assert_eq!(dump_to_string(&s), "efgh\ni   \n");
    assert_eq!(s.scroll_count, 1);
}

#[test]
fn control_bytes_move_the_cursor() {
    let mut s = Screen::new(20, 3);
    print_str(&mut s, "abc");
    s.execute(8);
    assert_eq!(s.cursor_col, 2);
    s.execute(b'\t');
    assert_eq!(s.cursor_col, 8);
    s.execute(b'\r');
    assert_eq!(s.cursor_col, 0);
    s.execute(b'\n');
    assert_eq!(s.cursor_row, 1);
    s.execute(7);
    assert_eq!((s.cursor_row, s.cursor_col), (1, 0));
    s.execute(8);
    assert_eq!(s.cursor_col, 0);
}

#[test]
fn tab_stops_at_the_last_column() {
    let mut s = Screen::new(10, 1);
    print_str(&mut s, "abcdefghi");
    s.execute(b'\t');
    assert_eq!(s.cursor_col, 9);
}

#[test]
fn line_feed_on_last_row_scrolls() {
    let mut s = Screen::new(3, 2);
    print_str(&mut s, "ab");
    s.execute(b'\n');
    s.execute(b'\n');
    assert_eq!(s.scroll_count, 1);
    assert_eq!(s.cursor_row, 1);
    assert_eq!(dump_to_string(&s), "   \n   \n");
}

#[test]
fn cursor_position_and_movement() {
    let mut s = Screen::new(10, 5);
    s.csi_dispatch(&vec![vec![2], vec![3]], b"", false, 'H');
    assert_eq!((s.cursor_row, s.cursor_col), (1, 2));
    s.csi_dispatch(&vec![], b"", false, 'f');
    assert_eq!((s.cursor_row, s.cursor_col), (0, 0));
    s.csi_dispatch(&vec![vec![99], vec![99]], b"", false, 'H');
    assert_eq!((s.cursor_row, s.cursor_col), (4, 9));
    s.csi_dispatch(&vec![vec![2]], b"", false, 'A');
    assert_eq!(s.cursor_row, 2);
    s.csi_dispatch(&vec![vec![0]], b"", false, 'D');
    assert_eq!(s.cursor_col, 8);
    s.csi_dispatch(&vec![], b"", false, 'B');
    assert_eq!(s.cursor_row, 3);
    s.csi_dispatch(&vec![vec![50]], b"", false, 'B');
    assert_eq!(s.cursor_row, 4);
    s.csi_dispatch(&vec![vec![50]], b"", false, 'D');
    assert_eq!(s.cursor_col, 0);
    s.csi_dispatch(&vec![vec![3]], b"", false, 'C');
    assert_eq!(s.cursor_col, 3);
    s.csi_dispatch(&vec![vec![50]], b"", false, 'A');
    assert_eq!(s.cursor_row, 0);
}

#[test]
fn erase_in_display_modes() {
    let mut s = Screen::new(3, 2);
    print_str(&mut s, "abcdef");
    s.csi_dispatch(&vec![vec![1], vec![2]], b"", false, 'H');
    s.csi_dispatch(&vec![], b"", false, 'J');
    assert_eq!(dump_to_string(&s), "a  \n   \n");
    let mut s = Screen::new(3, 2);
    print_str(&mut s, "abcdef");
    s.csi_dispatch(&vec![vec![2], vec![2]], b"", false, 'H');
    s.csi_dispatch(&vec![vec![1]], b"", false, 'J');
    assert_eq!(dump_to_string(&s), "   \n  f\n");
    s.csi_dispatch(&vec![vec![3]], b"", false, 'J');
    assert_eq!(dump_to_string(&s), "   \n   \n");
}

#[test]
fn erase_in_line_modes() {
    let mut s = Screen::new(4, 2);
    print_str(&mut s, "abcdefgh");
    s.csi_dispatch(&vec![vec![2], vec![2]], b"", false, 'H');
    s.csi_dispatch(&vec![], b"", false, 'K');
    assert_eq!(dump_to_string(&s), "abcd\ne   \n");
    let mut s = Screen::new(4, 2);
    print_str(&mut s, "abcdefgh");
    s.csi_dispatch(&vec![vec![1], vec![3]], b"", false, 'H');
    s.csi_dispatch(&vec![vec![1]], b"", false, 'K');
    assert_eq!(dump_to_string(&s), "   d\nefgh\n");
    s.csi_dispatch(&vec![vec![2]], b"", false, 'H');
    s.csi_dispatch(&vec![vec![2]], b"", false, 'K');
    assert_eq!(dump_to_string(&s), "   d\n    \n");
    s.csi_dispatch(&vec![vec![7]], b"", false, 'K');
    assert_eq!(dump_to_string(&s), "   d\n    \n");
}

#[test]
fn alternate_screen_modes_toggle() {
    let mut s = Screen::new(4, 2);
    s.csi_dispatch(&vec![vec![1049]], b"?", false, 'h');
    assert!(s.alt_screen);
    s.csi_dispatch(&vec![vec![25]], b"?", false, 'l');
    assert!(s.alt_screen);
    s.csi_dispatch(&vec![vec![25], vec![47]], b"?", false, 'l');
    assert!(!s.alt_screen);
    s.csi_dispatch(&vec![vec![1047]], b"?", false, 'h');
    assert!(s.alt_screen);
    // Without the private marker 'h' is not a mode switch handled here.
    s.csi_dispatch(&vec![vec![1049]], b"", false, 'l');
    assert!(s.alt_screen);
}

#[test]
fn first_param_defaults() {
    assert_eq!(first_param(&vec![], 7), 7);
    assert_eq!(first_param(&vec![vec![]], 7), 7);
    assert_eq!(first_param(&vec![vec![3, 4], vec![5]], 7), 3);
}

#[test]
fn dump_has_one_line_per_row() {
    let s = Screen::new(5, 3);
    let d = dump_to_string(&s);
    assert_eq!(d.chars().count(), 3 * (5 + 1));
    assert_eq!(d.lines().count(), 3);
}

#[test]
fn scrolled_lines_move_up() {
    let mut s = Screen::new(2, 3);
    print_str(&mut s, "abcdef");
    // The cursor is past the last column of the last row: the next
    // character scrolls one line.
    s.print('g');
    assert_eq!(dump_to_string(&s), "cd\nef\ng \n");
}

#[test]
fn zero_sized_screen_is_safe() {
    let mut s = Screen::new(0, 0);
    print_str(&mut s, "abc");
    s.execute(b'\n');
    s.execute(b'\t');
    s.csi_dispatch(&vec![], b"", false, 'J');
    assert_eq!(dump_to_string(&s), "");
}
