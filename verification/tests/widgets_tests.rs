use titik::event::Event;
use titik::event::KeyModifiers;
use titik::event::MouseButton;
use titik::Buffer;
use titik::Cmd;
use titik::ListBox;
use titik::Radio;
use titik::Rect;
use titik::Slider;
use titik::TextInput;

fn glyphs(frame: &str) -> String {
    frame.replace("\u{1b}[0m", "")
}

#[test]
fn radio_draws_indicator_and_label() {
    let mut buf = Buffer::new(12, 3);
    let mut r = Radio::new("ab");
    r.set_checked(true);
    r.draw(&mut buf, Rect { x: 0, y: 0, width: 6, height: 1 });
    let out = buf.render();
    // Indicator at column 1 of row 1, label from column 4 on.
    let row1: String = glyphs(&out).chars().skip(12).take(12).collect();
    assert!(row1.contains('\u{25c9}'));
    assert!(row1.contains("ab"));
}

#[test]
fn checkbox_symbols_follow_checked_state() {
    let mut buf = Buffer::new(10, 1);
    let mut cb = titik::Checkbox::new("x".to_string());
    cb.draw(&mut buf, Rect { x: 0, y: 0, width: 5, height: 1 });
    assert!(buf.render().contains('\u{2610}'));
    cb.set_checked(true);
    cb.draw(&mut buf, Rect { x: 0, y: 0, width: 5, height: 1 });
    assert!(buf.render().contains('\u{2611}'));
}

#[test]
fn slider_press_scales_to_thousandths() {
    let mut s = Slider::new(0);
    let rect = Rect { x: 0, y: 0, width: 10, height: 1 };
    let msgs = s.process_event(
        &Event::MouseDown(MouseButton::Left, 5, 0, KeyModifiers::none()),
        rect,
    );
    assert_eq!(s.value, 500);
    // The slider moves silently: its listeners are never consulted.
    assert!(msgs.is_empty());
    // A press right of the track saturates at the end of the range.
    s.process_event(
        &Event::MouseDown(MouseButton::Left, 50, 0, KeyModifiers::none()),
        rect,
    );
    assert_eq!(s.value, 1000);
}

#[test]
fn slider_draw_places_handle() {
    let mut buf = Buffer::new(12, 1);
    let mut s = Slider::new(500);
    s.use_thick_track(false);
    s.draw(&mut buf, Rect { x: 0, y: 0, width: 10, height: 1 });
    let out = buf.render();
    assert!(out.contains('\u{25a0}'));
}

#[test]
fn list_box_draws_items_and_dividers() {
    let mut buf = Buffer::new(20, 8);
    let mut lb = ListBox::new();
    lb.set_list(vec!["one".to_string(), "two".to_string()]);
    lb.draw(&mut buf, Rect { x: 0, y: 0, width: 12, height: 8 });
    let out = glyphs(&buf.render());
    assert!(out.contains("one"));
    assert!(out.contains("two"));
    assert!(out.contains('\u{250c}'));
}

#[test]
fn text_input_draw_emits_cursor_commands_when_focused() {
    let mut buf = Buffer::new(20, 4);
    let mut t = TextInput::new("abc");
    let rect = Rect { x: 0, y: 0, width: 10, height: 3 };
    let cmds = t.draw(&mut buf, rect);
    assert!(cmds.is_empty());
    t.set_focused(true);
    let cmds = t.draw(&mut buf, rect);
    assert_eq!(cmds.len(), 2);
    assert!(matches!(cmds[0], Cmd::ShowCursor));
    assert!(matches!(cmds[1], Cmd::MoveTo(4, 1)));
    let out = glyphs(&buf.render());
    assert!(out.contains("abc"));
}

#[test]
fn text_input_clips_to_inner_width() {
    let mut buf = Buffer::new(20, 4);
    let t = TextInput::new("abcdefgh");
    t.draw(&mut buf, Rect { x: 0, y: 0, width: 6, height: 3 });
    let out = glyphs(&buf.render());
    assert!(out.contains("abcd"));
    assert!(!out.contains("abcde"));
}

#[test]
fn cursor_move_command_is_one_based_row_first() {
    assert_eq!(Cmd::MoveTo(2, 3).ansi(), "\u{1b}[4;3H");
    assert_eq!(Cmd::ShowCursor.ansi(), "\u{1b}[?25h");
}
