//! Tests for the cross-core mailbox and the render planner.

use picolink::mailbox::{DisplayLineTable, Mailbox, DISPLAY_LINES};
use picolink::render::{render_plan, DrawColor, DrawCommand};

fn table_with(index: usize, text: &[u8]) -> DisplayLineTable {
    let mut t = DisplayLineTable::new();
    t.set_line(index, text.to_vec(), false);
    t
}

#[test]
fn mailbox_overwrite_keeps_only_the_newest_snapshot() {
    let mut mb = Mailbox::new();
    assert!(!mb.has_snapshot());
    mb.write(table_with(0, b"first"));
    mb.write(table_with(0, b"second"));
    assert!(mb.has_snapshot());
    let seen = mb.read_latest();
    assert_eq!(seen.get_line(0), &Some((b"second".to_vec(), false)));
}

#[test]
fn mailbox_reader_sees_same_value_until_next_write() {
    let mut mb = Mailbox::new();
    mb.write(table_with(3, b"x"));
    assert_eq!(mb.read_latest().get_line(3), &Some((b"x".to_vec(), false)));
    assert_eq!(mb.read_latest().get_line(3), &Some((b"x".to_vec(), false)));
    mb.write(table_with(3, b"y"));
    assert_eq!(mb.read_latest().get_line(3), &Some((b"y".to_vec(), false)));
}

#[test]
fn table_always_has_ten_slots() {
    let t = DisplayLineTable::new();
    for i in 0..DISPLAY_LINES {
        assert_eq!(t.get_line(i), &None);
    }
}

#[test]
fn table_set_and_clear_line() {
    let mut t = DisplayLineTable::new();
    t.set_line(5, b"hello".to_vec(), true);
    assert_eq!(t.get_line(5), &Some((b"hello".to_vec(), true)));
    t.clear_line(5);
    assert_eq!(t.get_line(5), &None);
}

#[test]
fn first_frame_draws_static_layout_for_every_line() {
    let t = DisplayLineTable::new();
    let cmds = render_plan(&t, true);
    // Per line: the number label, the separator rule, and the region clear.
    assert_eq!(cmds.len(), 3 * DISPLAY_LINES);
    match &cmds[0] {
        DrawCommand::Text { x, y, color, text } => {
            assert_eq!((*x, *y), (0, 13));
            assert_eq!(*color, DrawColor::White);
            assert_eq!(text, &b"1".to_vec());
        }
        other => panic!("expected a text label first, got {:?}", kind_of(other)),
    }
    match &cmds[1] {
        DrawCommand::Line {
            x0,
            y0,
            x1,
            y1,
            color,
            stroke,
        } => {
            assert_eq!((*x0, *y0, *x1, *y1), (2, 15, 125, 15));
            assert_eq!(*color, DrawColor::Blue);
            assert_eq!(*stroke, 1);
        }
        other => panic!("expected a separator rule, got {:?}", kind_of(other)),
    }
    match &cmds[2] {
        DrawCommand::FillRect {
            x,
            y,
            width,
            height,
            color,
        } => {
            assert_eq!((*x, *y, *width, *height), (15, 5, 113, 10));
            assert_eq!(*color, DrawColor::Black);
        }
        other => panic!("expected a region clear, got {:?}", kind_of(other)),
    }
    // The last line's label says "10".
    match &cmds[3 * (DISPLAY_LINES - 1)] {
        DrawCommand::Text { y, text, .. } => {
            assert_eq!(*y, 121);
            assert_eq!(text, &b"10".to_vec());
        }
        other => panic!("expected a text label, got {:?}", kind_of(other)),
    }
}

#[test]
fn later_frames_only_clear_and_redraw_text() {
    let t = table_with(1, b"kc: d");
    let cmds = render_plan(&t, false);
    // Nine empty lines clear only; the filled line clears and draws.
    assert_eq!(cmds.len(), DISPLAY_LINES + 1);
    match &cmds[2] {
        DrawCommand::Text { x, y, color, text } => {
            assert_eq!((*x, *y), (15, 25));
            assert_eq!(*color, DrawColor::Red);
            assert_eq!(text, &b"kc: d".to_vec());
        }
        other => panic!("expected the line text, got {:?}", kind_of(other)),
    }
}

fn kind_of(c: &DrawCommand) -> &'static str {
    match c {
        DrawCommand::Text { .. } => "text",
        DrawCommand::Line { .. } => "line",
        DrawCommand::FillRect { .. } => "fill-rect",
    }
}
