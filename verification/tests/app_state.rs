use psa_ret::app::{is_yaml_extension, ActiveScreen, App, TableState};
use psa_ret::bus::can::CanMessage;
use psa_ret::config::Config;

fn message(text: &str) -> CanMessage {
    CanMessage::from_yaml_str(text).unwrap().unwrap()
}

fn app_with(n: usize) -> App {
    let mut app = App::new(Config::generate_default_config());
    for k in 0..n {
        assert!(app.receive_loaded_message(Ok(message(&format!("id: {}", k)))));
    }
    app
}

#[test]
fn new_app_state() {
    let app = App::new(Config::generate_default_config());
    assert_eq!(app.active_screen, ActiveScreen::CanBus);
    assert!(app.edit_window.is_none());
    assert!(app.can_messages.is_empty());
    assert_eq!(app.table_state.selected(), Some(0));
}

#[test]
fn table_state_select() {
    let mut t = TableState::new();
    assert_eq!(t.selected(), None);
    t.select(Some(4));
    assert_eq!(t.selected(), Some(4));
    t.select(None);
    assert_eq!(t.selected(), None);
}

#[test]
fn next_message_wraps() {
    let mut app = app_with(3);
    app.next_message();
    assert_eq!(app.table_state.selected(), Some(1));
    app.next_message();
    assert_eq!(app.table_state.selected(), Some(2));
    app.next_message();
    assert_eq!(app.table_state.selected(), Some(0));
    app.table_state.select(None);
    app.next_message();
    assert_eq!(app.table_state.selected(), Some(0));
}

#[test]
fn previous_message_wraps() {
    let mut app = app_with(3);
    app.previous_message();
    assert_eq!(app.table_state.selected(), Some(2));
    app.previous_message();
    assert_eq!(app.table_state.selected(), Some(1));
    app.table_state.select(None);
    app.previous_message();
    assert_eq!(app.table_state.selected(), Some(0));
}

#[test]
fn next_then_previous_restores_selection() {
    for n in 1..5usize {
        for i in 0..n {
            let mut app = app_with(n);
            app.table_state.select(Some(i));
            app.next_message();
            app.previous_message();
            assert_eq!(app.table_state.selected(), Some(i));
            app.previous_message();
            app.next_message();
            assert_eq!(app.table_state.selected(), Some(i));
        }
    }
}

#[test]
fn loading_stops_at_an_error() {
    let mut app = app_with(1);
    assert!(!app.receive_loaded_message(Err("Can't read file.".to_string())));
    assert_eq!(app.can_messages.len(), 1);
}

#[test]
fn messages_sorted_by_id_stably() {
    let mut app = App::new(Config::generate_default_config());
    for text in ["id: '0x20'\nname: a", "name: none1", "id: '0x10'", "id: '0x20'\nname: b", "name: none2", "id: '0x2'"] {
        assert!(app.receive_loaded_message(Ok(message(text))));
    }
    app.sort_can_messages();
    let order: Vec<(Option<String>, Option<String>)> =
        app.can_messages.iter().map(|m| (m.id.clone(), m.name.clone())).collect();
    assert_eq!(
        order,
        vec![
            (None, Some("none1".to_string())),
            (None, Some("none2".to_string())),
            (Some("0x10".to_string()), None),
            (Some("0x2".to_string()), None),
            (Some("0x20".to_string()), Some("a".to_string())),
            (Some("0x20".to_string()), Some("b".to_string())),
        ]
    );
}

#[test]
fn yaml_extensions() {
    assert!(is_yaml_extension("yml"));
    assert!(is_yaml_extension("yaml"));
    assert!(!is_yaml_extension("YAML"));
    assert!(!is_yaml_extension("txt"));
}

#[test]
fn key_hints() {
    assert_eq!(ActiveScreen::CanBus.key_hint(), "Quit[q] Nav[↑↓] New[n] Edit[e]");
    assert_eq!(ActiveScreen::Editing.key_hint(), "Quit[q] Nav[↑↓] Select[s]");
}

#[test]
fn sorting_twice_changes_nothing() {
    let mut app = App::new(Config::generate_default_config());
    for text in ["id: '0x3'", "name: n", "id: '0x1'\nname: a", "id: '0x1'\nname: b"] {
        assert!(app.receive_loaded_message(Ok(message(text))));
    }
    app.sort_can_messages();
    let once = app.can_messages.clone();
    app.sort_can_messages();
    assert_eq!(app.can_messages, once);
}

#[test]
fn previous_message_on_empty_list_from_later_row() {
    let mut app = App::new(Config::generate_default_config());
    app.table_state.select(Some(2));
    app.previous_message();
    assert_eq!(app.table_state.selected(), Some(1));
    app.table_state.select(None);
    app.previous_message();
    assert_eq!(app.table_state.selected(), Some(0));
}
