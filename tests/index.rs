use vonal::index::{build_index, get_exec_id, AppAction, AppIndex, Indexer};

fn entry(name: &str, command: &str) -> AppIndex {
    AppIndex {
        command: command.to_string(),
        name: name.to_string(),
        generic_name: None,
        actions: vec![],
    }
}

#[test]
fn exec_id_is_last_segment_first_word_lowercase() {
    assert_eq!(get_exec_id("/usr/bin/Firefox %u"), "firefox");
    assert_eq!(get_exec_id("nautilus --new-window"), "nautilus");
    assert_eq!(get_exec_id("/opt/App/Bin"), "bin");
    assert_eq!(get_exec_id(""), "");
    assert_eq!(get_exec_id("/usr/bin/"), "");
    assert_eq!(get_exec_id("/usr/bin/Foo\t--x"), "foo");
    assert_eq!(get_exec_id("  Foo bar"), "foo");
}

#[test]
fn merged_entries_keep_input_order() {
    let index = build_index(
        vec![entry("Files", "nautilus")],
        vec![entry("ls", "/usr/bin/ls"), entry("cat", "/usr/bin/cat")],
    );
    let names: Vec<&str> = index.iter().map(|e| e.name.as_str()).collect();
    assert_eq!(names, vec!["ls", "cat", "Files"]);
}

#[test]
fn description_entries_alone_are_not_deduplicated() {
    let index = Indexer::default().index(
        vec![entry("One", "tool"), entry("", "x"), entry("Two", "tool")],
        None,
    );
    let names: Vec<&str> = index.iter().map(|e| e.name.as_str()).collect();
    assert_eq!(names, vec!["One", "Two"]);
}

#[test]
fn desktop_entry_wins_over_path_entry() {
    let mut desktop = entry("Firefox", "/usr/lib/firefox/firefox %u");
    desktop.generic_name = Some("Web Browser".to_string());
    desktop.actions = vec![AppAction {
        name: "New Window".to_string(),
        command: "firefox --new-window".to_string(),
    }];
    let path = entry("firefox", "/usr/bin/firefox");
    let index = build_index(vec![desktop], vec![path]);
    assert_eq!(index.len(), 1);
    assert_eq!(index[0].name, "Firefox");
    assert_eq!(index[0].generic_name.as_deref(), Some("Web Browser"));
    assert_eq!(index[0].actions.len(), 1);
}

#[test]
fn entries_with_other_keys_are_kept() {
    let index = build_index(
        vec![entry("Files", "nautilus")],
        vec![entry("ls", "/usr/bin/ls"), entry("cat", "/usr/bin/cat")],
    );
    let mut names: Vec<String> = index.iter().map(|e| e.name.clone()).collect();
    names.sort();
    assert_eq!(names, vec!["Files", "cat", "ls"]);
}

#[test]
fn entries_without_name_or_command_are_dropped() {
    let index = build_index(vec![entry("", "x"), entry("y", "")], vec![entry("z", "/bin/z")]);
    assert_eq!(index.len(), 1);
    assert_eq!(index[0].name, "z");
}

#[test]
fn later_entry_with_same_key_wins() {
    let index = build_index(vec![], vec![entry("first", "/a/tool"), entry("second", "/b/TOOL")]);
    assert_eq!(index.len(), 1);
    assert_eq!(index[0].name, "second");
}

#[test]
fn indexer_without_path_entries() {
    let index = Indexer::default().index(vec![entry("Files", "nautilus")], None);
    assert_eq!(index.len(), 1);
    let copy = index[0].copied();
    assert_eq!((copy.name.as_str(), copy.command.as_str()), ("Files", "nautilus"));
    let index = Indexer::default().index(
        vec![entry("Files", "nautilus")],
        Some(vec![entry("nautilus", "/usr/bin/nautilus")]),
    );
    assert_eq!(index.len(), 1);
    assert_eq!(index[0].name, "Files");
}
