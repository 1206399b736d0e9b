use lucio_core::manifest::{categories, default_category_ids};
use lucio_core::selection::{Action, Key, Selection};

fn default_ids() -> Vec<String> {
    default_category_ids()
        .iter()
        .map(|id| (*id).to_owned())
        .collect()
}

#[test]
fn starts_with_defaults_checked() {
    assert_eq!(Selection::new().selected_ids(), default_ids());
}

#[test]
fn space_toggles_the_cursor_row_off() {
    let mut s = Selection::new();
    // Cursor starts on row 0 ("settings", checked): toggle it off.
    assert!(matches!(s.handle_key(Key::Char(' ')), Action::Continue));
    assert!(!s.selected_ids().contains(&"settings".to_owned()));
}

#[test]
fn navigating_down_and_toggling_enables_an_extra() {
    let mut s = Selection::new();
    // Rows: 0 settings, 1 extensions, 2 extension-options, 3 bookmarks.
    s.handle_key(Key::Down);
    s.handle_key(Key::Down);
    s.handle_key(Key::Down);
    s.handle_key(Key::Char(' '));
    assert!(s.selected_ids().contains(&"bookmarks".to_owned()));
}

#[test]
fn enter_confirms_and_esc_cancels() {
    let mut s = Selection::new();
    assert!(matches!(s.handle_key(Key::Enter), Action::Confirm));
    assert!(matches!(s.handle_key(Key::Esc), Action::Cancel));
}

#[test]
fn toggle_all_then_reset_defaults() {
    let mut s = Selection::new();
    s.handle_key(Key::Char('a'));
    assert_eq!(s.selected_ids().len(), categories().len());
    s.handle_key(Key::Char('d'));
    assert_eq!(s.selected_ids(), default_ids());
}

#[test]
fn cursor_stays_in_bounds() {
    let mut s = Selection::new();
    s.handle_key(Key::Up); // already at top
    assert_eq!(s.cursor(), 0);
    for _ in 0..categories().len() + 5 {
        s.handle_key(Key::Down);
    }
    assert_eq!(s.cursor(), categories().len() - 1);
}

#[test]
fn vim_keys_move_and_q_cancels() {
    let mut s = Selection::new();
    assert_eq!(s.handle_key(Key::Char('j')), Action::Continue);
    assert_eq!(s.handle_key(Key::Char('j')), Action::Continue);
    assert_eq!(s.cursor(), 2);
    s.handle_key(Key::Char('k'));
    assert_eq!(s.cursor(), 1);
    assert_eq!(s.handle_key(Key::Char('q')), Action::Cancel);
    assert_eq!(s.handle_key(Key::Char('x')), Action::Continue);
    assert_eq!(s.handle_key(Key::Other), Action::Continue);
    assert_eq!(s.cursor(), 1);
    assert_eq!(s.selected_ids(), default_ids());
}

#[test]
fn toggling_twice_restores_the_selection() {
    let mut s = Selection::new();
    s.handle_key(Key::Down);
    s.toggle();
    assert_eq!(s.selected_ids(), ["settings", "extension-options"]);
    s.toggle();
    assert_eq!(s.selected_ids(), default_ids());
}

#[test]
fn all_twice_clears_everything() {
    let mut s = Selection::new();
    s.toggle_all();
    let all: Vec<String> = categories().iter().map(|c| c.id.to_owned()).collect();
    assert_eq!(s.selected_ids(), all);
    s.toggle_all();
    assert!(s.selected_ids().is_empty());
    for i in 0..categories().len() {
        assert!(!s.is_checked(i));
    }
    s.reset_defaults();
    assert!(s.is_checked(0));
    assert!(!s.is_checked(3));
}

#[test]
fn move_up_and_down_saturate() {
    let mut s = Selection::new();
    s.move_up();
    assert_eq!(s.cursor(), 0);
    s.move_down();
    assert_eq!(s.cursor(), 1);
    s.move_up();
    assert_eq!(s.cursor(), 0);
}

#[test]
fn repeated_moves_down_stop_on_the_last_row_and_keep_the_flags() {
    let mut s = Selection::new();
    s.move_down();
    s.move_down();
    assert_eq!(s.cursor(), 2);
    for _ in 0..categories().len() - 1 {
        s.move_down();
    }
    assert_eq!(s.cursor(), categories().len() - 1);
    assert_eq!(s.selected_ids(), default_ids());
}
