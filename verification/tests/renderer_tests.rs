use titik::event::Event;
use titik::event::KeyCode;
use titik::event::KeyEvent;
use titik::event::KeyModifiers;
use titik::event::MouseButton;
use titik::Checkbox;
use titik::Control;
use titik::FlexBox;
use titik::LayoutTree;
use titik::Rect;
use titik::Renderer;
use titik::RunState;
use titik::TextInput;

fn sample_renderer() -> Renderer {
    // Root box over a checkbox (left half) and a text input (right half).
    let mut root = FlexBox::new();
    root.add_child(Control::Checkbox(Checkbox::new("cb".to_string())));
    root.add_child(Control::TextInput(TextInput::new("hi")));
    let layout = LayoutTree {
        layout: Rect { x: 0, y: 0, width: 20, height: 4 },
        children_layout: vec![
            LayoutTree {
                layout: Rect { x: 0, y: 0, width: 10, height: 4 },
                children_layout: vec![],
            },
            LayoutTree {
                layout: Rect { x: 10, y: 0, width: 10, height: 4 },
                children_layout: vec![],
            },
        ],
    };
    let mut r = Renderer::new(Control::FlexBox(root), 20, 4, layout);
    r.begin();
    r
}

fn ctrl(c: char) -> Event {
    Event::Key(KeyEvent {
        code: KeyCode::Char(c),
        modifiers: KeyModifiers { shift: false, control: true, alt: false },
    })
}

#[test]
fn control_quit_characters_terminate_without_focus() {
    for c in ['c', 'q', 'd', 'z'] {
        let mut r = sample_renderer();
        let outcome = r.step(&ctrl(c));
        assert!(outcome.quit);
        assert_eq!(r.state, RunState::Finalizing);
    }
}

#[test]
fn control_quit_characters_terminate_with_focus() {
    for c in ['c', 'q', 'd', 'z'] {
        let mut r = sample_renderer();
        // Focus the text input first via a pointer press on it.
        r.step(&Event::MouseDown(MouseButton::Left, 12, 1, KeyModifiers::none()));
        assert_eq!(r.focused_widget_idx, Some(2));
        let outcome = r.step(&ctrl(c));
        assert!(outcome.quit);
        assert_eq!(r.state, RunState::Finalizing);
    }
}

#[test]
fn other_keys_do_not_terminate() {
    let mut r = sample_renderer();
    let outcome = r.step(&Event::Key(KeyEvent {
        code: KeyCode::Char('c'),
        modifiers: KeyModifiers::none(),
    }));
    assert!(!outcome.quit);
    assert_eq!(r.state, RunState::Running);
}

#[test]
fn pointer_press_moves_focus_to_deepest_node() {
    let mut r = sample_renderer();
    r.step(&Event::MouseDown(MouseButton::Left, 1, 1, KeyModifiers::none()));
    assert_eq!(r.focused_widget_idx, Some(1));
    r.step(&Event::MouseDown(MouseButton::Left, 12, 1, KeyModifiers::none()));
    assert_eq!(r.focused_widget_idx, Some(2));
    // A press outside every rectangle clears the hit.
    r.step(&Event::MouseDown(MouseButton::Left, 25, 1, KeyModifiers::none()));
    assert_eq!(r.focused_widget_idx, None);
}

#[test]
fn keys_reach_only_the_focused_widget() {
    let mut r = sample_renderer();
    r.step(&Event::MouseDown(MouseButton::Left, 12, 1, KeyModifiers::none()));
    let outcome = r.step(&Event::Key(KeyEvent {
        code: KeyCode::Char('!'),
        modifiers: KeyModifiers::none(),
    }));
    assert!(!outcome.quit);
    assert!(outcome.needs_layout);
    // The pointer press that focused the input also placed its cursor at
    // offset 12 - 10 = 2, the end of the two-character text.
    match titik::find_widget(&r.root, 2).unwrap() {
        Control::TextInput(t) => assert_eq!(t.get_value(), "hi!".to_string()),
        _ => panic!("expected the text input"),
    }
}

#[test]
fn resize_updates_the_known_size() {
    let mut r = sample_renderer();
    let outcome = r.step(&Event::Resize(80, 24));
    assert!(outcome.needs_layout);
    assert_eq!((r.terminal_width, r.terminal_height), (80, 24));
}

#[test]
fn pointer_press_toggles_checkbox_and_reports() {
    let mut r = sample_renderer();
    let outcome = r.step(&Event::MouseDown(MouseButton::Left, 1, 1, KeyModifiers::none()));
    // The press lands on the root and the checkbox; the checkbox reacts.
    assert!(outcome
        .msgs
        .iter()
        .any(|m| matches!(m, titik::Msg::InputChanged(true))));
    match titik::find_widget(&r.root, 1).unwrap() {
        Control::Checkbox(cb) => assert!(cb.is_checked),
        _ => panic!("expected the checkbox"),
    }
}

#[test]
fn draw_frame_fills_the_terminal_grid() {
    let r = sample_renderer();
    let (buf, _cmds) = r.draw_frame();
    let out = buf.render();
    // 20 x 4 cells, each glyph followed by the four-character reset.
    assert_eq!(out.chars().count(), 20 * 4 * 5);
}

#[test]
fn stale_focus_index_is_silently_skipped() {
    let mut r = sample_renderer();
    // The host may capture an index that the next frame's tree no longer
    // has; delivery is skipped without a fault and without a relayout.
    r.focused_widget_idx = Some(99);
    let outcome = r.step(&Event::Key(KeyEvent {
        code: KeyCode::Char('x'),
        modifiers: KeyModifiers::none(),
    }));
    assert!(!outcome.quit);
    assert!(!outcome.needs_layout);
    assert!(outcome.msgs.is_empty());
    match titik::find_widget(&r.root, 2).unwrap() {
        Control::TextInput(t) => assert_eq!(t.get_value(), "hi".to_string()),
        _ => panic!("expected the text input"),
    }
}

#[test]
fn scroll_reaches_widget_without_moving_focus() {
    let mut r = sample_renderer();
    r.step(&Event::MouseDown(MouseButton::Left, 12, 1, KeyModifiers::none()));
    assert_eq!(r.focused_widget_idx, Some(2));
    // A scroll over the checkbox is fanned out to the nodes under the
    // point but never moves the focus.
    let outcome = r.step(&Event::ScrollUp(1, 1, KeyModifiers::none()));
    assert!(!outcome.quit);
    assert!(outcome.needs_layout);
    assert_eq!(r.focused_widget_idx, Some(2));
}
