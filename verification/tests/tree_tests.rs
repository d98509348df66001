use titik::event::Event;
use titik::event::KeyModifiers;
use titik::event::MouseButton;
use titik::event::Msg;
use titik::Checkbox;
use titik::Control;
use titik::FlexBox;
use titik::Radio;
use titik::Rect;
use titik::TextInput;

fn sample_tree() -> Control {
    // Preorder: 0 root, 1 radio, 2 inner box, 3 checkbox, 4 text input.
    let mut inner = FlexBox::new();
    inner.add_child(Control::Checkbox(Checkbox::new("cb".to_string())));
    inner.add_child(Control::TextInput(TextInput::new("hi")));
    let mut root = FlexBox::new();
    root.add_child(Control::Radio(Radio::new("r1")));
    root.add_child(Control::FlexBox(inner));
    Control::FlexBox(root)
}

#[test]
fn preorder_count_and_lookup() {
    let tree = sample_tree();
    assert_eq!(titik::count_nodes(&tree), 5);
    // Every position below the count resolves; the one past it does not.
    for i in 0..5usize {
        assert!(titik::find_widget(&tree, i).is_some());
    }
    assert!(titik::find_widget(&tree, 5).is_none());
    // Counting to each position independently lands on the expected kind.
    assert!(matches!(titik::find_widget(&tree, 0), Some(Control::FlexBox(_))));
    assert!(matches!(titik::find_widget(&tree, 1), Some(Control::Radio(_))));
    assert!(matches!(titik::find_widget(&tree, 2), Some(Control::FlexBox(_))));
    assert!(matches!(titik::find_widget(&tree, 3), Some(Control::Checkbox(_))));
    assert!(matches!(titik::find_widget(&tree, 4), Some(Control::TextInput(_))));
}

fn focused_flags(tree: &Control) -> Vec<bool> {
    let n = titik::count_nodes(tree);
    let mut flags = Vec::new();
    for i in 0..n {
        let node = titik::find_widget(tree, i).unwrap();
        flags.push(match node {
            Control::TextInput(t) => t.focused,
            _ => false,
        });
    }
    flags
}

#[test]
fn focus_is_cleared_then_set() {
    let mut tree = sample_tree();
    titik::set_focused_node(&mut tree, 4);
    assert_eq!(focused_flags(&tree), vec![false, false, false, false, true]);
    // Focusing a node that cannot take focus clears the old focus.
    titik::set_focused_node(&mut tree, 1);
    assert_eq!(focused_flags(&tree), vec![false, false, false, false, false]);
    // Setting the same index twice is idempotent.
    titik::set_focused_node(&mut tree, 4);
    let once = focused_flags(&tree);
    titik::set_focused_node(&mut tree, 4);
    assert_eq!(focused_flags(&tree), once);
    assert_eq!(once, vec![false, false, false, false, true]);
}

#[test]
fn event_at_index_toggles_only_that_checkbox() {
    let mut tree = sample_tree();
    let rect = Rect { x: 0, y: 0, width: 10, height: 1 };
    let press = Event::MouseDown(MouseButton::Left, 1, 0, KeyModifiers::none());
    let msgs = titik::process_event_at(&mut tree, 3, &press, rect);
    assert_eq!(msgs.len(), 1);
    assert!(matches!(msgs[0], Msg::InputChanged(true)));
    match titik::find_widget(&tree, 3).unwrap() {
        Control::Checkbox(cb) => assert!(cb.is_checked),
        _ => panic!("expected a checkbox at position 3"),
    }
    // The sibling text input is untouched.
    match titik::find_widget(&tree, 4).unwrap() {
        Control::TextInput(t) => assert_eq!(t.get_value(), "hi".to_string()),
        _ => panic!("expected a text input at position 4"),
    }
    // A position past the tree is silently skipped.
    let msgs = titik::process_event_at(&mut tree, 99, &press, rect);
    assert!(msgs.is_empty());
}

#[test]
fn text_input_editing() {
    let mut t = TextInput::new("ab");
    t.process_key(titik::event::KeyEvent {
        code: titik::event::KeyCode::Char('c'),
        modifiers: KeyModifiers::none(),
    });
    assert_eq!(t.get_value(), "abc".to_string());
    t.process_key(titik::event::KeyEvent {
        code: titik::event::KeyCode::Backspace,
        modifiers: KeyModifiers::none(),
    });
    assert_eq!(t.get_value(), "ab".to_string());
    t.process_key(titik::event::KeyEvent {
        code: titik::event::KeyCode::Home,
        modifiers: KeyModifiers::none(),
    });
    t.process_key(titik::event::KeyEvent {
        code: titik::event::KeyCode::Delete,
        modifiers: KeyModifiers::none(),
    });
    assert_eq!(t.get_value(), "b".to_string());
}

#[test]
fn add_child_only_on_containers() {
    let mut leaf = Control::Radio(Radio::new("r"));
    assert!(!leaf.add_child(Control::Radio(Radio::new("s"))));
    let mut root = Control::FlexBox(FlexBox::new());
    assert!(root.add_child(leaf));
    assert_eq!(titik::count_nodes(&root), 2);
}
