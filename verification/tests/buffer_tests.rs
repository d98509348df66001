use titik::buffer::Attribute;
use titik::buffer::Color;
use titik::Buffer;
use titik::Cell;

#[test]
fn cell1() {
    let mut w = String::new();
    let cell = Cell::new("H".to_string());
    w.push_str(cell.to_ansi_string().as_str());
    println!("{}", w);
    assert_eq!(w, "H\u{1b}[0m");
}

#[test]
fn cell2() {
    let mut w = String::new();
    let mut cell = Cell::new("H".to_string());
    cell.attributes(vec![
        Attribute::Bold,
        Attribute::Italic,
        Attribute::CrossedOut,
    ]);
    cell.color(Color::Red);
    cell.background(Color::Yellow);
    w.push_str(cell.to_ansi_string().as_str());
    println!("{}", w);
    assert_eq!(
        w,
        "\u{1b}[48;5;11m\u{1b}[38;5;9m\u{1b}[1m\u{1b}[3m\u{1b}[9mH\u{1b}[0m"
    );
}

#[test]
fn out_of_range_writes_change_nothing() {
    let mut buf = Buffer::new(3, 2);
    let before = buf.render();
    buf.set_symbol(3, 0, 'x');
    buf.set_symbol(0, 2, 'x');
    buf.set_symbol(100, 100, 'x');
    buf.set_cell(7, 7, Cell::new("y".to_string()));
    assert_eq!(buf.render(), before);
}

#[test]
fn in_range_write_changes_only_its_cell() {
    let mut buf = Buffer::new(3, 1);
    buf.set_symbol(1, 0, 'x');
    assert_eq!(buf.render(), " \u{1b}[0mx\u{1b}[0m \u{1b}[0m");
}

#[test]
fn default_styled_frame_has_no_style_sequences() {
    let mut buf = Buffer::new(2, 2);
    buf.set_symbol(0, 0, 'a');
    buf.set_symbol(1, 1, 'b');
    let out = buf.render();
    assert_eq!(out, "a\u{1b}[0m \u{1b}[0m \u{1b}[0mb\u{1b}[0m");
    assert!(!out.contains("\u{1b}[38;"));
    assert!(!out.contains("\u{1b}[48;"));
}

#[test]
fn colored_cell_is_reset_right_after_its_glyph() {
    let mut buf = Buffer::new(2, 1);
    let mut cell = Cell::new("X".to_string());
    cell.color(Color::Green);
    buf.set_cell(0, 0, cell);
    let out = buf.render();
    assert_eq!(out, "\u{1b}[38;5;10mX\u{1b}[0m \u{1b}[0m");
    assert!(out.contains("X\u{1b}[0m"));
}

#[test]
fn reset_blanks_every_cell() {
    let mut buf = Buffer::new(2, 1);
    buf.set_symbol(0, 0, 'q');
    buf.reset();
    assert_eq!(buf.render(), " \u{1b}[0m \u{1b}[0m");
}
