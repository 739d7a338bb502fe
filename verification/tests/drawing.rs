use typing_trainer::render::{clamp_u16, footer, render_frame, render_row, Cell, Footer};
use typing_trainer::session::{App, CharState};
use typing_trainer::time::minutes_seconds;

fn typed_session(text: &str, typed: &str, width: usize, height: u16) -> App {
    let mut app = App::new(text, width, height);
    for c in typed.chars() {
        app.push_char(c);
    }
    app
}

fn glyphs(row: &[Cell]) -> String {
    row.iter().map(|cell| cell.glyph).collect()
}

#[test]
fn frame_shows_all_lines_when_they_fit() {
    let app = typed_session("Hello this is text", "Hellx", 10, 24);
    let frame = app.draw_text();
    assert_eq!(frame.first_line, 0);
    assert_eq!(frame.rows.len(), 3);
    assert_eq!(glyphs(&frame.rows[0]), "Hellx ");
    assert_eq!(glyphs(&frame.rows[1]), "this is ");
    assert_eq!(glyphs(&frame.rows[2]), "text");
    assert_eq!(frame.rows[0][0], Cell { glyph: 'H', state: CharState::Correct });
    assert_eq!(frame.rows[0][4], Cell { glyph: 'x', state: CharState::Incorrect('x') });
    assert_eq!(frame.rows[0][5], Cell { glyph: ' ', state: CharState::Untyped });
    assert!(frame.rows[1].iter().all(|cell| cell.state == CharState::Untyped));
    assert_eq!((frame.cursor_x, frame.cursor_y), (5, 0));
}

#[test]
fn frame_scrolls_to_the_line_before_the_cursor() {
    let app = typed_session("Hello this is text", "Hello this is ", 10, 5);
    let frame = app.draw_text();
    assert_eq!(frame.first_line, 1);
    assert_eq!(frame.rows.len(), 2);
    assert_eq!(glyphs(&frame.rows[0]), "this is ");
    assert_eq!(glyphs(&frame.rows[1]), "text");
    assert!(frame.rows[0].iter().all(|cell| cell.state == CharState::Correct));
    assert_eq!((frame.cursor_x, frame.cursor_y), (0, 1));
}

#[test]
fn frame_does_not_scroll_on_the_first_two_lines() {
    let app = typed_session("Hello this is text", "Hello t", 10, 5);
    let frame = app.draw_text();
    assert_eq!(frame.first_line, 0);
    assert_eq!(frame.rows.len(), 2);
    assert_eq!(glyphs(&frame.rows[1]), "this is ");
    assert_eq!((frame.cursor_x, frame.cursor_y), (1, 1));
}

#[test]
fn frame_with_hidden_cursor_line() {
    let app = typed_session("Hello this is text", "Hello this is t", 10, 4);
    let frame = app.draw_text();
    assert_eq!(frame.first_line, 1);
    assert_eq!(frame.rows.len(), 1);
    assert_eq!((frame.cursor_x, frame.cursor_y), (0, 0));
}

#[test]
fn frame_without_room_is_empty() {
    for height in 0..4u16 {
        let app = typed_session("Hello this is text", "He", 10, height);
        let frame = app.draw_text();
        assert_eq!(frame.rows.len(), if height == 3 { 0 } else { height.saturating_sub(3) as usize });
        assert_eq!((frame.cursor_x, frame.cursor_y), (0, 0));
    }
}

#[test]
fn frame_of_a_complete_session() {
    let text = "Hello this is text";
    let app = typed_session(text, text, 10, 24);
    let frame = app.draw_text();
    assert_eq!(frame.rows.len(), 3);
    assert!(frame.rows.iter().flatten().all(|cell| cell.state == CharState::Correct));
    assert_eq!((frame.cursor_x, frame.cursor_y), (0, 0));
}

#[test]
fn render_frame_on_given_lines() {
    let text: Vec<char> = "ab cd".chars().collect();
    let typed: Vec<char> = "ax ".chars().collect();
    let frame = render_frame(&text, &typed, &vec![3, 5], 10);
    assert_eq!(frame.rows.len(), 2);
    assert_eq!(frame.rows[0][1], Cell { glyph: 'x', state: CharState::Incorrect('x') });
    assert_eq!(frame.rows[1][0], Cell { glyph: 'c', state: CharState::Untyped });
    assert_eq!((frame.cursor_x, frame.cursor_y), (0, 1));
}

#[test]
fn render_row_cells() {
    let text: Vec<char> = "abcd".chars().collect();
    let typed: Vec<char> = "abx".chars().collect();
    let row = render_row(&text, &typed, 1, 4);
    assert_eq!(
        row,
        vec![
            Cell { glyph: 'b', state: CharState::Correct },
            Cell { glyph: 'x', state: CharState::Incorrect('x') },
            Cell { glyph: 'd', state: CharState::Untyped },
        ]
    );
    assert_eq!(render_row(&text, &typed, 2, 2), vec![]);
}

#[test]
fn footer_figures() {
    let app = typed_session("cat dog", "cat d", 80, 24);
    let (frame, figures) = app.draw(125);
    assert_eq!(frame.rows.len(), 1);
    assert_eq!(
        figures,
        Footer {
            chars_typed: 5,
            chars_total: 7,
            words_typed: 1,
            words_total: 2,
            minutes: 2,
            seconds: 5,
        }
    );
    let text: Vec<char> = "a b c".chars().collect();
    let none: Vec<char> = Vec::new();
    let figures = footer(&text, &none, 59);
    assert_eq!(figures.words_typed, 0);
    assert_eq!(figures.words_total, 3);
    assert_eq!((figures.minutes, figures.seconds), (0, 59));
}

#[test]
fn clock_and_clamp() {
    assert_eq!(minutes_seconds(0), (0, 0));
    assert_eq!(minutes_seconds(60), (1, 0));
    assert_eq!(minutes_seconds(3599), (59, 59));
    assert_eq!(clamp_u16(0), 0);
    assert_eq!(clamp_u16(65535), 65535);
    assert_eq!(clamp_u16(65536), 65535);
}
