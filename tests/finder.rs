use vonal::finder::Finder;
use vonal::index::{AppAction, AppIndex};

fn entry(name: &str, command: &str) -> AppIndex {
    AppIndex {
        command: command.to_string(),
        name: name.to_string(),
        generic_name: None,
        actions: vec![],
    }
}

fn summary(finder: &Finder, query: &str, limit: usize) -> Vec<(String, i32, Vec<String>)> {
    finder
        .find(query, limit)
        .iter()
        .map(|m| (m.index.name.clone(), m.fitness(), m.fuzzy_info.segments.clone()))
        .collect()
}

#[test]
fn empty_query_over_many_entries() {
    let entries: Vec<AppIndex> = (0..1000)
        .map(|i| entry(&format!("app{i}"), &format!("/usr/bin/app{i}")))
        .collect();
    let finder = Finder::new(entries);
    let results = finder.find("", 10);
    assert_eq!(results.len(), 10);
    assert!(results.iter().all(|m| m.fitness() == 0));
}

#[test]
fn empty_index_finds_nothing() {
    let finder = Finder::new(vec![]);
    assert!(finder.find("chromium", 10).is_empty());
    assert!(Finder::default().find("", 3).is_empty());
}

#[test]
fn find_twice_gives_same_results() {
    let entries = vec![
        entry("Chromium", "/usr/bin/chromium %U"),
        entry("Files", "nautilus"),
        entry("Firefox", "/usr/bin/firefox %u"),
        entry("Filelight", "filelight"),
    ];
    let finder = Finder::new(entries);
    assert_eq!(summary(&finder, "fi", 3), summary(&finder, "fi", 3));
}

#[test]
fn results_are_ordered_and_limited() {
    let entries = vec![
        entry("Terminal", "xterm"),
        entry("Files", "nautilus"),
        entry("Filess", "filess"),
        entry("Chromium", "chromium"),
    ];
    let finder = Finder::new(entries);
    let results = summary(&finder, "files", 2);
    assert_eq!(results.len(), 2);
    assert_eq!(results[0].0, "Files");
    assert_eq!(results[1].0, "Filess");
    assert!(results[0].1 > results[1].1);
    assert_eq!(finder.find("files", 100).len(), 4);
}

#[test]
fn name_match_beats_command_match() {
    // the same text as name and as command: the command pays the bias
    let finder = Finder::new(vec![entry("zed", "zed")]);
    let results = summary(&finder, "zed", 1);
    assert_eq!(results[0].1, 5000 - 3);
}

#[test]
fn command_match_is_biased() {
    let finder = Finder::new(vec![entry("Editor", "/usr/bin/zed")]);
    let results = summary(&finder, "zed", 1);
    // "zed" in "/usr/bin/zed": first match at 9, nine mismatches, length 12
    assert_eq!(results[0].1, 5000 - 270 - 90 - 12 - 10);
    assert_eq!(results[0].2, vec!["zed"]);
}

#[test]
fn richer_entries_get_bonuses() {
    let mut rich = entry("zed", "zed");
    rich.generic_name = Some("Text Editor".to_string());
    rich.actions = vec![AppAction {
        name: "New Window".to_string(),
        command: "zed --new".to_string(),
    }];
    let finder = Finder::new(vec![entry("zed", "zed"), rich]);
    let results = finder.find("zed", 2);
    assert_eq!(results[0].fitness(), 5000 - 3 + 20);
    assert_eq!(results[0].index.generic_name.as_deref(), Some("Text Editor"));
    assert_eq!(results[1].fitness(), 5000 - 3);
}
