use typing_trainer::session::{locate, App, CharState, Input, Step};
use typing_trainer::stats::{accuracy_ratio, correct_count, word_count};

fn typed_session(text: &str, typed: &str, width: usize, height: u16) -> App {
    let mut app = App::new(text, width, height);
    for c in typed.chars() {
        app.push_char(c);
    }
    app
}

#[test]
fn classify_cat_dig() {
    let app = typed_session("cat dog", "cat dig", 80, 24);
    let states = app.classify();
    assert_eq!(
        states,
        vec![
            CharState::Correct,
            CharState::Correct,
            CharState::Correct,
            CharState::Correct,
            CharState::Correct,
            CharState::Incorrect('i'),
            CharState::Correct,
        ]
    );
    assert_eq!(accuracy_ratio("cat dog", "cat dig"), Some((6, 7)));
}

#[test]
fn classify_counts_add_up() {
    let text = "the quick brown fox";
    let mut app = App::new(text, 10, 24);
    for (n, c) in "thx quick brawn fox".chars().enumerate() {
        let states = app.classify();
        let untyped = states.iter().filter(|s| **s == CharState::Untyped).count();
        assert_eq!(states.len(), 19);
        assert_eq!(untyped, 19 - n);
        assert_eq!(states.len() - untyped, n);
        app.push_char(c);
    }
    let states = app.classify();
    assert!(states.iter().all(|s| *s != CharState::Untyped));
}

#[test]
fn fresh_session_has_cursor_at_origin() {
    let text = "twenty characters ok";
    assert_eq!(text.chars().count(), 20);
    let app = App::new(text, 80, 24);
    assert_eq!(app.cursor_position(), Some((0, 0)));
    assert_eq!(word_count(text, ""), 0);
    assert!(!app.is_complete());
}

#[test]
fn complete_session() {
    let text = "one two three";
    let app = typed_session(text, text, 80, 24);
    assert!(app.is_complete());
    assert_eq!(app.cursor_position(), None);
    assert_eq!(word_count(text, app.typed_ref()), 3);
    assert_eq!(accuracy_ratio(text, app.typed_ref()), Some((13, 13)));
}

#[test]
fn cursor_walks_the_lines() {
    let text = "Hello this is text";
    let mut app = App::new(text, 10, 24);
    let mut seen = Vec::new();
    for c in text.chars() {
        seen.push(app.cursor_position());
        app.push_char(c);
    }
    assert_eq!(seen[0], Some((0, 0)));
    assert_eq!(seen[5], Some((0, 5)));
    assert_eq!(seen[6], Some((1, 0)));
    assert_eq!(seen[7], Some((1, 1)));
    assert_eq!(seen[13], Some((1, 7)));
    assert_eq!(seen[14], Some((2, 0)));
    assert_eq!(seen[17], Some((2, 3)));
    assert_eq!(app.cursor_position(), None);
}

#[test]
fn locate_on_given_line_ends() {
    let ends = vec![6usize, 14, 18];
    assert_eq!(locate(&ends, 0), Some((0, 0)));
    assert_eq!(locate(&ends, 13), Some((1, 7)));
    assert_eq!(locate(&ends, 17), Some((2, 3)));
    assert_eq!(locate(&ends, 18), None);
    assert_eq!(locate(&vec![0usize], 0), None);
}

#[test]
fn push_after_completion_is_ignored() {
    let mut app = typed_session("ab", "ab", 80, 24);
    assert!(app.is_complete());
    app.push_char('c');
    assert_eq!(app.typed_ref(), "ab");
    assert!(app.is_complete());
}

#[test]
fn push_appends_one_character() {
    let mut app = App::new("abc", 80, 24);
    app.push_char('x');
    assert_eq!(app.typed_ref(), "x");
    app.push_char('ö');
    assert_eq!(app.typed_ref(), "xö");
}

#[test]
fn pop_on_empty_is_ignored() {
    let mut app = App::new("ab", 80, 24);
    app.pop_char();
    assert_eq!(app.typed_ref(), "");
    app.push_char('a');
    app.push_char('x');
    app.pop_char();
    assert_eq!(app.typed_ref(), "a");
    app.pop_char();
    app.pop_char();
    assert_eq!(app.typed_ref(), "");
}

#[test]
fn rewrap_keeps_progress() {
    let text = "Hello this is text";
    let mut app = typed_session(text, "Hello th", 10, 24);
    assert_eq!(app.cursor_position(), Some((1, 2)));
    app.rewrap(80);
    assert_eq!(app.typed_ref(), "Hello th");
    assert!(!app.is_complete());
    assert_eq!(app.cursor_position(), Some((0, 8)));
    let mut done = typed_session(text, text, 10, 24);
    done.rewrap(5);
    assert!(done.is_complete());
    assert_eq!(done.typed_ref(), text);
}

#[test]
fn empty_text_is_complete_at_once() {
    let mut app = App::new("", 10, 24);
    assert!(app.is_complete());
    assert_eq!(app.cursor_position(), None);
    assert_eq!(app.handle_event(Input::Char('a')), Step::Stop);
    assert_eq!(app.typed_ref(), "");
}

#[test]
fn events_drive_the_session() {
    let text = "Hello this is text";
    let mut app = App::new(text, 10, 24);
    assert_eq!(app.current_line(), 0);
    for c in "Hello t".chars() {
        assert_eq!(app.handle_event(Input::Char(c)), Step::Continue);
    }
    assert_eq!(app.current_line(), 1);
    assert_eq!(app.handle_event(Input::Backspace), Step::Continue);
    assert_eq!(app.typed_ref(), "Hello ");
    assert_eq!(app.current_line(), 1);
    assert_eq!(app.handle_event(Input::Backspace), Step::Continue);
    assert_eq!(app.current_line(), 0);
    assert_eq!(app.handle_event(Input::Idle), Step::Continue);
    assert_eq!(app.handle_event(Input::Control('c')), Step::Continue);
    assert_eq!(app.typed_ref(), "Hello");
    assert_eq!(app.handle_event(Input::Resize(4, 30)), Step::Continue);
    assert_eq!(app.terminal_height(), 30);
    assert_eq!(app.typed_ref(), "Hello");
    assert_eq!(app.cursor_position(), Some((0, 5)));
    assert_eq!(app.handle_event(Input::Control('q')), Step::Stop);
    assert_eq!(app.typed_ref(), "Hello");
}

#[test]
fn last_key_stops_the_loop() {
    let mut app = App::new("hi", 10, 24);
    assert_eq!(app.handle_event(Input::Char('h')), Step::Continue);
    assert_eq!(app.handle_event(Input::Char('x')), Step::Stop);
    assert!(app.is_complete());
    assert_eq!(app.typed_ref(), "hx");
}

#[test]
fn set_current_line_follows_the_cursor() {
    let text = "Hello this is text";
    let mut app = typed_session(text, "Hello this is ", 10, 24);
    assert_eq!(app.current_line(), 0);
    app.set_current_line();
    assert_eq!(app.current_line(), 2);
    for c in "text".chars() {
        app.push_char(c);
    }
    app.set_current_line();
    assert_eq!(app.current_line(), 2);
}

#[test]
fn word_count_cases() {
    assert_eq!(word_count("a b c", "a b c"), 3);
    assert_eq!(word_count("a b c", "x y z"), 3);
    assert_eq!(word_count("a b c", "a b"), 1);
    assert_eq!(word_count("a b c", "a b "), 2);
    assert_eq!(word_count("a b c", "a b c d e"), 2);
    assert_eq!(word_count("", ""), 1);
}

#[test]
fn accuracy_cases() {
    assert_eq!(accuracy_ratio("cat", ""), None);
    assert_eq!(accuracy_ratio("cat", "dog"), Some((0, 3)));
    assert_eq!(accuracy_ratio("cat", "ca"), Some((2, 2)));
    assert_eq!(accuracy_ratio("cat", "cart"), Some((2, 4)));
    assert_eq!(correct_count("abc", "abd"), 2);
    for typed in ["a", "ab", "xbc", "abc"] {
        let (right, all) = accuracy_ratio("abc", typed).unwrap();
        let accuracy = right as f64 / all as f64;
        assert!((0.0..=1.0).contains(&accuracy));
    }
}

#[test]
fn timer_runs() {
    let app = App::new("abc", 10, 24);
    let first = app.timer_ref().elapsed();
    let second = app.timer_ref().elapsed();
    assert!(second >= first);
}
