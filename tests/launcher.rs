use vonal::index::AppIndex;
use vonal::launcher::Launcher;

fn entry(name: &str, command: &str) -> AppIndex {
    AppIndex {
        command: command.to_string(),
        name: name.to_string(),
        generic_name: None,
        actions: vec![],
    }
}

#[test]
fn split_query_at_first_space() {
    assert_eq!(
        Launcher::split_query("firefox a b"),
        ("firefox".to_string(), "a b".to_string())
    );
    assert_eq!(Launcher::split_query("firefox"), ("firefox".to_string(), String::new()));
    assert_eq!(Launcher::split_query(""), (String::new(), String::new()));
    assert_eq!(Launcher::split_query(" x"), (String::new(), "x".to_string()));
}

#[test]
fn field_codes_are_replaced_by_arguments() {
    assert_eq!(
        Launcher::command_line("/usr/bin/firefox %u", "example.org"),
        "/usr/bin/firefox example.org"
    );
    assert_eq!(Launcher::command_line("gimp %F %i", "a.png"), "gimp a.png a.png");
}

#[test]
fn arguments_are_appended_without_field_codes() {
    assert_eq!(Launcher::command_line("xterm", "-e top"), "xterm -e top");
    assert_eq!(Launcher::with_arguments("a", "b", "a"), "a b");
    assert_eq!(Launcher::with_arguments("a %u", "b", "a b"), "a b");
}

#[test]
fn reindex_respects_path_setting() {
    let mut launcher = Launcher::new();
    launcher.configure(String::new(), false, 5);
    launcher.reindex_apps(vec![entry("Files", "nautilus")], vec![entry("ls", "/usr/bin/ls")]);
    assert_eq!(launcher.find_apps("").len(), 1);
    launcher.configure(String::new(), true, 5);
    launcher.reindex_apps(vec![entry("Files", "nautilus")], vec![entry("ls", "/usr/bin/ls")]);
    assert_eq!(launcher.find_apps("").len(), 2);
    assert_eq!(launcher.find_apps("ls")[0].index.name, "ls");
}
