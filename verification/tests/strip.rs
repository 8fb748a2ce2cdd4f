use ghostty_voice_core::strip::{geometry, render, Winsize};

#[test]
fn standard_terminal_reserves_one_bottom_row() {
    let g = geometry(24, 80, 1);
    assert_eq!(g.child, Winsize { rows: 23, cols: 80 });
    assert_eq!(g.strip_row, 24);
}

#[test]
fn width_is_never_changed_by_reserving_a_bottom_strip() {
    for cols in [1u16, 80, 132, 400] {
        assert_eq!(geometry(40, cols, 1).child.cols, cols);
    }
}

#[test]
fn child_origin_stays_at_the_top_so_the_strip_is_below_it() {
    let g = geometry(50, 120, 1);
    assert_eq!(g.child.rows, 49);
    assert_eq!(g.strip_row, 50);
    assert!(g.strip_row > g.child.rows, "strip must sit below the child");
}

#[test]
fn a_multi_row_strip_reserves_that_many_rows() {
    let g = geometry(24, 80, 3);
    assert_eq!(g.child, Winsize { rows: 21, cols: 80 });
    assert_eq!(g.strip_row, 22);
}

#[test]
fn a_one_row_terminal_gives_the_child_zero_rows_without_panicking() {
    let g = geometry(1, 80, 1);
    assert_eq!(g.child, Winsize { rows: 0, cols: 80 });
    assert_eq!(g.strip_row, 1);
}

#[test]
fn a_terminal_shorter_than_the_strip_never_underflows() {
    let g = geometry(2, 80, 5);
    assert_eq!(g.child.rows, 0);
    assert_eq!(g.strip_row, 1);
}

#[test]
fn a_zero_sized_terminal_is_handled() {
    let g = geometry(0, 0, 1);
    assert_eq!(g.child, Winsize { rows: 0, cols: 0 });
    assert_eq!(g.strip_row, 1);
}

#[test]
fn render_targets_the_strip_row_carries_the_state_and_restores_the_cursor() {
    let bytes = render(24, "recording");
    let s = String::from_utf8(bytes).unwrap();
    assert!(s.starts_with("\x1b7"), "must save the cursor first");
    assert!(
        s.contains("\x1b[24;1H"),
        "must address the strip row, col 1"
    );
    assert!(s.contains("recording"), "must paint the state token");
    assert!(s.ends_with("\x1b8"), "must restore the cursor last");
}

#[test]
fn render_shows_the_streaming_state_so_a_live_dictation_is_visible() {
    let s = String::from_utf8(render(24, "streaming")).unwrap();
    assert!(
        s.contains("streaming"),
        "must paint the streaming state token"
    );
}

#[test]
fn render_is_exactly_save_move_clear_dot_state_restore() {
    let s = String::from_utf8(render(7, "idle")).unwrap();
    assert_eq!(s, "\x1b7\x1b[7;1H\x1b[2K\u{25cf} idle\x1b8");
}

#[test]
fn the_strip_row_saturates_at_the_largest_row() {
    let g = geometry(u16::MAX, 10, 0);
    assert_eq!(g.child.rows, u16::MAX);
    assert_eq!(g.strip_row, u16::MAX);
}
