use vonal::desktop::{entry_from_fields, read_desktop_entry, split_actions};
use vonal::index::{is_executable_file, AppIndex};

const FIREFOX: &str = "[Desktop Entry]
Name=Firefox
GenericName=Web Browser
Exec=firefox %u
Actions=new-window;new-private-window;

[Desktop Action new-window]
Name=New Window
Exec=firefox --new-window

[Desktop Action new-private-window]
Name=New Private Window
Exec=firefox --private-window
";

#[test]
fn reads_name_command_and_actions() {
    let e = read_desktop_entry("/usr/share/applications/firefox.desktop", FIREFOX).unwrap();
    assert_eq!(e.name, "Firefox");
    assert_eq!(e.command, "firefox %u");
    assert_eq!(e.generic_name.as_deref(), Some("Web Browser"));
    assert_eq!(e.actions.len(), 2);
    assert_eq!(e.actions[0].name, "New Window");
    assert_eq!(e.actions[0].command, "firefox --new-window");
    assert_eq!(e.actions[1].name, "New Private Window");
}

#[test]
fn file_without_command_is_skipped() {
    let text = "[Desktop Entry]\nName=Nothing\n";
    assert!(read_desktop_entry("/x/nothing.desktop", text).is_none());
}

#[test]
fn file_with_empty_name_is_skipped() {
    let text = "[Desktop Entry]\nName=\nExec=run\n";
    assert!(read_desktop_entry("/x/empty.desktop", text).is_none());
}

#[test]
fn line_starting_with_equals_is_skipped() {
    let text = "[Desktop Entry]\n  =x\nName=A\nExec=run\n";
    assert!(read_desktop_entry("/x/a.desktop", text).is_none());
    let fine = "[Desktop Entry]\nName=A=B\nExec=run\n";
    assert_eq!(read_desktop_entry("/x/a.desktop", fine).unwrap().name, "A=B");
}

#[test]
fn names_are_read_untranslated() {
    let text = "[Desktop Entry]\nX-Ubuntu-Gettext-Domain=no-such-domain\nName=Files\nName[de]=Dateien\nExec=nautilus\n";
    let e = read_desktop_entry("/x/files.desktop", text).unwrap();
    assert_eq!(e.name, "Files");
}

#[test]
fn actions_without_command_are_dropped() {
    let e = entry_from_fields(
        Some("Files".to_string()),
        Some("nautilus".to_string()),
        None,
        vec![
            (Some("New Window".to_string()), Some("nautilus -w".to_string())),
            (Some("Broken".to_string()), None),
            (None, Some("x".to_string())),
        ],
    )
    .unwrap();
    assert_eq!(e.actions.len(), 1);
    assert_eq!(e.actions[0].command, "nautilus -w");
    assert!(entry_from_fields(None, Some("x".to_string()), None, vec![]).is_none());
    assert!(entry_from_fields(Some("x".to_string()), Some(String::new()), None, vec![]).is_none());
}

#[test]
fn actions_are_split_at_semicolons() {
    assert_eq!(split_actions("a;b;"), vec!["a", "b", ""]);
    assert_eq!(split_actions(""), vec![""]);
    assert_eq!(split_actions("one"), vec!["one"]);
}

#[test]
fn executables_of_search_path() {
    let e = AppIndex::from_executable("ls".to_string(), "/usr/bin/ls".to_string());
    assert_eq!((e.name.as_str(), e.command.as_str()), ("ls", "/usr/bin/ls"));
    assert!(e.generic_name.is_none() && e.actions.is_empty());
    assert!(is_executable_file(true, 0o755));
    assert!(is_executable_file(true, 0o100));
    assert!(!is_executable_file(true, 0o644));
    assert!(!is_executable_file(false, 0o755));
}
