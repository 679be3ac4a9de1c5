use miru::render::canvas::Canvas;
use miru::render::style::BoxChars;

#[test]
fn draw_unicode_box() {
    let mut c = Canvas::new(10, 5);
    c.draw_box(1, 1, 6, 3, false);
    let output = c.to_string();
    assert!(output.contains('\u{250C}')); // ┌
    assert!(output.contains('\u{2518}')); // ┘
}

#[test]
fn write_str_on_canvas() {
    let mut c = Canvas::new(20, 1);
    c.write_str(2, 0, "hello");
    assert_eq!(c.to_string(), "  hello");
}

#[test]
fn new_canvas_is_blank() {
    let c = Canvas::new(3, 2);
    assert_eq!(c.width(), 3);
    assert_eq!(c.height(), 2);
    assert_eq!(c.get(2, 1), Some(' '));
    assert_eq!(c.get(3, 0), None);
    assert_eq!(c.get(0, 2), None);
    assert_eq!(c.to_string(), "\n");
}

#[test]
fn set_then_get_and_out_of_bounds_ignored() {
    let mut c = Canvas::new(4, 2);
    c.set(1, 1, 'x');
    c.set(4, 0, 'y');
    c.set(0, 2, 'z');
    assert_eq!(c.get(1, 1), Some('x'));
    assert_eq!(c.to_string(), "\n x");
}

#[test]
fn write_str_clips_at_the_edge() {
    let mut c = Canvas::new(5, 1);
    c.write_str(3, 0, "abc");
    assert_eq!(c.to_string(), "   ab");
}

#[test]
fn lines_are_drawn_cell_by_cell() {
    let mut c = Canvas::new(5, 4);
    c.hline(1, 0, 3, '-');
    c.vline(4, 1, 5, '|');
    assert_eq!(c.to_string(), " ---\n    |\n    |\n    |");
}

#[test]
fn ascii_box_exact() {
    let mut c = Canvas::new(6, 4);
    c.draw_box(0, 1, 4, 3, true);
    assert_eq!(c.to_string(), "\n+--+\n|  |\n+--+");
}

#[test]
fn unicode_box_exact() {
    let mut c = Canvas::new(3, 2);
    c.draw_box(0, 0, 3, 2, false);
    assert_eq!(c.to_string(), "\u{250C}\u{2500}\u{2510}\n\u{2514}\u{2500}\u{2518}");
}

#[test]
fn too_small_box_draws_nothing() {
    let mut c = Canvas::new(4, 4);
    c.draw_box(0, 0, 1, 3, false);
    c.draw_box(0, 0, 3, 1, true);
    assert_eq!(c.to_string(), "\n\n\n");
}

#[test]
fn trailing_spaces_are_trimmed_per_row() {
    let mut c = Canvas::new(6, 2);
    c.write_str(0, 0, "a b");
    c.set(5, 1, ' ');
    assert_eq!(c.to_string(), "a b\n");
}

#[test]
fn box_char_sets() {
    let u = BoxChars::unicode();
    assert_eq!(
        (u.top_left, u.top_right, u.bottom_left, u.bottom_right, u.horizontal, u.vertical),
        ('\u{250C}', '\u{2510}', '\u{2514}', '\u{2518}', '\u{2500}', '\u{2502}')
    );
    let a = BoxChars::ascii();
    assert_eq!(
        (a.top_left, a.top_right, a.bottom_left, a.bottom_right, a.horizontal, a.vertical),
        ('+', '+', '+', '+', '-', '|')
    );
}
