use launchdock::apps::AppInfo;
use launchdock::ui::{Action, AppState, Key, Message, Modifiers};

fn create_test_app(name: &str, path: &str) -> AppInfo {
    AppInfo {
        name: name.to_string(),
        exe_path: path.to_string(),
        icon_path: None,
    }
}

fn create_test_state(apps: Vec<AppInfo>, query: &str) -> AppState {
    let mut state = AppState::new(apps);
    state.search_query = query.to_string();
    state
}

#[test]
fn ui_test_basic_matching() {
    let apps = vec![
        create_test_app("firefox", "/usr/bin/firefox"),
        create_test_app("photogravure", "/usr/bin/photogravure"),
        create_test_app("gimp", "/usr/bin/gimp"),
        create_test_app("gnome-video", "/usr/bin/gnome-video"),
    ];

    let state = create_test_state(apps, "gv");
    let results = state.filtered_apps();

    assert_eq!(results.len(), 2);
    assert_eq!(results[0].name, "photogravure");
    assert_eq!(results[1].name, "gnome-video");
}

#[test]
fn ui_test_case_insensitive() {
    let apps = vec![
        create_test_app("Firefox", "/usr/bin/Firefox"),
        create_test_app("GIMP", "/usr/bin/GIMP"),
    ];

    let state = create_test_state(apps.clone(), "fox");
    let results = state.filtered_apps();
    assert_eq!(results.len(), 1);
    assert_eq!(results[0].name, "Firefox");

    let state = create_test_state(apps, "GIM");
    let results = state.filtered_apps();
    assert_eq!(results.len(), 1);
    assert_eq!(results[0].name, "GIMP");
}

#[test]
fn ui_test_empty_query() {
    let apps = vec![
        create_test_app("firefox", "/usr/bin/firefox"),
        create_test_app("gimp", "/usr/bin/gimp"),
    ];

    let state = create_test_state(apps, "");
    let results = state.filtered_apps();
    assert_eq!(results.len(), 0);
}

#[test]
fn ui_test_no_matches() {
    let apps = vec![
        create_test_app("firefox", "/usr/bin/firefox"),
        create_test_app("photogravure", "/usr/bin/photogravure"),
        create_test_app("gimp", "/usr/bin/gimp"),
        create_test_app("gnome-video", "/usr/bin/gnome-video"),
    ];

    let state = create_test_state(apps, "xyz");
    let results = state.filtered_apps();
    assert_eq!(results.len(), 0);
}

fn plain() -> Modifiers {
    Modifiers { logo: false, control: false, alt: false }
}

fn key(k: Key) -> Message {
    Message::KeyPressed(k, plain())
}

fn typed(c: &str) -> Message {
    key(Key::Character(c.to_string()))
}

fn sample_state() -> AppState {
    let names = ["alpha", "alps", "alto", "altitude", "alder", "alien", "align", "allot", "allay"];
    AppState::new(names.iter().map(|n| create_test_app(n, &format!("/usr/bin/{}", n))).collect())
}

#[test]
fn typing_builds_the_query_and_ranks() {
    let mut state = sample_state();
    assert_eq!(state.update(typed("a")), Action::Continue);
    assert_eq!(state.update(typed("l")), Action::Continue);
    assert_eq!(state.search_query, "al");
    assert_eq!(state.current_filtered_apps.len(), 9);
    assert_eq!(state.selected_index, 0);
    assert_eq!(state.update(typed("p")), Action::Continue);
    let names: Vec<&str> =
        state.current_filtered_apps.iter().map(|&i| state.all_apps[i].name.as_str()).collect();
    assert_eq!(names, vec!["alps", "alpha"]);
}

#[test]
fn backspace_drops_the_last_character() {
    let mut state = sample_state();
    state.update(Message::InputChanged("alps".to_string()));
    assert_eq!(state.current_filtered_apps.len(), 1);
    assert_eq!(state.update(key(Key::Backspace)), Action::Continue);
    assert_eq!(state.search_query, "alp");
    assert_eq!(state.current_filtered_apps.len(), 2);
    let mut empty = sample_state();
    assert_eq!(empty.update(key(Key::Backspace)), Action::Continue);
    assert_eq!(empty.search_query, "");
}

#[test]
fn arrows_cycle_within_the_shown_results() {
    let mut state = sample_state();
    state.update(Message::InputChanged("al".to_string()));
    assert_eq!(state.current_filtered_apps.len(), 9);
    state.update(key(Key::ArrowUp));
    assert_eq!(state.selected_index, 6);
    state.update(key(Key::ArrowDown));
    assert_eq!(state.selected_index, 0);
    state.update(key(Key::ArrowDown));
    assert_eq!(state.selected_index, 1);
    let first = state.current_filtered_apps[1];
    assert_eq!(state.update(key(Key::Enter)), Action::Launch(first));
}

#[test]
fn enter_and_escape_close_the_window() {
    let mut state = sample_state();
    assert_eq!(state.update(key(Key::Enter)), Action::Exit);
    assert_eq!(state.update(key(Key::Escape)), Action::Exit);
    assert_eq!(state.update(Message::IgnoreEvent), Action::Continue);
    assert_eq!(state.update(key(Key::Other)), Action::Continue);
}

#[test]
fn logo_digit_launches_a_shown_result() {
    let mut state = sample_state();
    state.update(Message::InputChanged("alp".to_string()));
    let second = state.current_filtered_apps[1];
    let logo = Modifiers { logo: true, control: false, alt: false };
    assert_eq!(state.update(Message::KeyPressed(Key::Character("2".to_string()), logo)), Action::Launch(second));
    assert_eq!(state.update(Message::KeyPressed(Key::Character("3".to_string()), logo)), Action::Continue);
    assert_eq!(state.update(Message::KeyPressed(Key::Character("x".to_string()), logo)), Action::Continue);
    assert_eq!(state.search_query, "alp");
    let ctrl = Modifiers { logo: false, control: true, alt: false };
    assert_eq!(state.update(Message::KeyPressed(Key::Character("x".to_string()), ctrl)), Action::Continue);
    assert_eq!(state.search_query, "alp");
}
