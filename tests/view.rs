use launchdock::model::{App, AppModel};
use launchdock::ui::{Action, Key};
use launchdock::view::{AppState, Message};

fn create_test_app(name: &str, path: &str) -> App {
    App {
        name: name.to_string(),
        path: path.to_string(),
        description: None,
        icon: None,
    }
}

fn create_test_state(apps: Vec<App>, query: &str) -> AppState {
    let model = AppModel {
        all_apps: apps,
        ui_visible: false,
    };
    let mut state = AppState::new(model);
    state.search_query = query.to_string();
    state
}

#[test]
fn view_test_basic_matching() {
    let apps = vec![
        create_test_app("firefox", "/usr/bin/firefox"),
        create_test_app("photogravure", "/usr/bin/photogravure"),
        create_test_app("gimp", "/usr/bin/gimp"),
        create_test_app("gnome-video", "/usr/bin/gnome-video"),
    ];

    let state = create_test_state(apps, "gv");
    let results = state.filtered_apps();

    assert_eq!(results.len(), 2);
    assert_eq!(results[0].name, "photogravure");
    assert_eq!(results[1].name, "gnome-video");
}

#[test]
fn view_test_case_insensitive() {
    let apps = vec![
        create_test_app("Firefox", "/usr/bin/Firefox"),
        create_test_app("GIMP", "/usr/bin/GIMP"),
    ];

    let state = create_test_state(apps.clone(), "fox");
    let results = state.filtered_apps();
    assert_eq!(results.len(), 1);
    assert_eq!(results[0].name, "Firefox");

    let state = create_test_state(apps, "GIM");
    let results = state.filtered_apps();
    assert_eq!(results.len(), 1);
    assert_eq!(results[0].name, "GIMP");
}

#[test]
fn view_test_empty_query() {
    let apps = vec![
        create_test_app("firefox", "/usr/bin/firefox"),
        create_test_app("gimp", "/usr/bin/gimp"),
    ];

    let state = create_test_state(apps, "");
    let results = state.filtered_apps();
    assert_eq!(results.len(), 0);
}

#[test]
fn view_test_no_matches() {
    let apps = vec![
        create_test_app("firefox", "/usr/bin/firefox"),
        create_test_app("photogravure", "/usr/bin/photogravure"),
        create_test_app("gimp", "/usr/bin/gimp"),
        create_test_app("gnome-video", "/usr/bin/gnome-video"),
    ];

    let state = create_test_state(apps, "xyz");
    let results = state.filtered_apps();
    assert_eq!(results.len(), 0);
}

#[test]
fn view_digit_shortcut_or_search_text() {
    let apps = vec![create_test_app("firefox", "/usr/bin/firefox"), create_test_app("fig", "/usr/bin/fig")];
    let mut state = create_test_state(apps, "");
    assert_eq!(state.update(Message::KeyPressed(Key::Character("f".to_string()))), Action::Continue);
    assert_eq!(state.current_filtered_apps, vec![1, 0]);
    assert_eq!(state.update(Message::KeyPressed(Key::Character("1".to_string()))), Action::Launch(1));
    assert_eq!(state.update(Message::KeyPressed(Key::Character("3".to_string()))), Action::Continue);
    assert_eq!(state.search_query, "f3");
    assert_eq!(state.current_filtered_apps.len(), 0);
    assert_eq!(state.update(Message::ForceExit), Action::Exit);
}
