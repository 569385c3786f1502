use vonal::index::{AppAction, AppIndex};
use vonal::plugin::LauncherPlugin;

fn entry(name: &str, command: &str, actions: &[(&str, &str)]) -> AppIndex {
    AppIndex {
        command: command.to_string(),
        name: name.to_string(),
        generic_name: None,
        actions: actions
            .iter()
            .map(|(n, c)| AppAction { name: n.to_string(), command: c.to_string() })
            .collect(),
    }
}

fn plugin() -> LauncherPlugin {
    let mut p = LauncherPlugin::new(vec![
        entry("Firefox", "firefox %u", &[("New Window", "firefox --new-window"), ("Private", "firefox -p")]),
        entry("Files", "nautilus", &[]),
    ]);
    p.search("fire");
    p
}

#[test]
fn no_selection_before_search() {
    let p = LauncherPlugin::new(vec![entry("Files", "nautilus", &[])]);
    assert!(p.get_focused_entry().is_none());
    assert_eq!(p.get_selected_command(), None);
}

#[test]
fn focused_entry_command_is_selected() {
    let p = plugin();
    assert_eq!(p.get_focused_entry().unwrap().name, "Firefox");
    assert_eq!(p.get_selected_command(), Some("firefox %u"));
}

#[test]
fn actions_are_walked_and_bounded() {
    let mut p = plugin();
    p.select_next_action();
    assert_eq!(p.get_selected_command(), Some("firefox --new-window"));
    p.select_next_action();
    p.select_next_action();
    assert_eq!(p.get_selected_command(), Some("firefox -p"));
    p.select_prev_action();
    p.select_prev_action();
    assert_eq!(p.get_selected_command(), Some("firefox %u"));
    p.select_prev_action();
    assert_eq!(p.get_selected_command(), Some("firefox %u"));
}

#[test]
fn entries_are_walked_and_bounded() {
    let mut p = plugin();
    p.select_next_action();
    p.select_next();
    assert_eq!(p.get_selected_command(), Some("nautilus"));
    p.select_next();
    assert_eq!(p.get_selected_command(), None);
    p.select_next();
    p.select_prev();
    assert_eq!(p.get_selected_command(), Some("nautilus"));
    p.select_prev();
    p.select_prev();
    assert_eq!(p.get_selected_command(), Some("firefox %u"));
    p.select_next();
    p.select_next_action();
    assert_eq!(p.get_selected_command(), Some("nautilus"));
}

#[test]
fn entry_without_actions_has_no_action_focus() {
    let mut p = plugin();
    p.select_next_action();
    p.select_next_action();
    p.search("nautilus");
    assert_eq!(p.get_focused_entry().unwrap().name, "Files");
    p.select_next_action();
    assert_eq!(p.get_selected_command(), Some("nautilus"));
}
