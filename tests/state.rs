use vonal::cache::Cached;
use vonal::list::{Keys, List, ListState};

fn keys(up: bool, down: bool, left: bool, right: bool, enter: bool) -> Keys {
    Keys { up, down, left, right, enter }
}

#[test]
fn new_list_state_selects_row() {
    let s = ListState::new(3);
    assert_eq!((s.row, s.col, s.activate), (3, 0, false));
}

#[test]
fn row_moves_and_is_clamped() {
    let mut s = ListState::new(0);
    s.update(keys(false, true, false, false, false), 3, 2);
    assert_eq!(s.row, 1);
    s.update(keys(false, true, false, false, false), 2, 2);
    assert_eq!(s.row, 1);
    s.update(keys(true, false, false, false, false), 2, 2);
    s.update(keys(true, false, false, false, false), 2, 2);
    assert_eq!((s.row, s.col), (-1, -1));
    s.update(keys(true, false, false, false, true), 2, 2);
    assert_eq!((s.row, s.activate), (-1, true));
}

#[test]
fn col_is_kept_within_actions() {
    let mut s = ListState::new(0);
    s.update(keys(false, false, false, true, false), 1, 2);
    assert_eq!(s.col, 1);
    s.update(keys(false, false, false, true, false), 1, 2);
    assert_eq!(s.col, 1);
    s.update(keys(false, false, false, false, false), 1, 0);
    assert_eq!(s.col, -1);
    s.update(keys(false, false, true, false, false), 1, 3);
    assert_eq!(s.col, 0);
}

#[test]
fn list_builder_sets_fields() {
    let list: List<u8> = List::new();
    assert!(list.callback.is_none() && list.limit.is_none());
    let list = list.with_builder(7).with_limit(4).with_initally_selected_row(-1);
    assert_eq!(list.callback, Some(7));
    assert_eq!(list.limit, Some(4));
    assert_eq!(list.initially_selected_row, -1);
}

#[test]
fn cache_recomputes_only_for_new_key() {
    let mut cache: Cached<u32> = Cached::default();
    assert_eq!(cache.get_or_create("a".to_string(), || 1), 1);
    assert_eq!(cache.get_or_create("a".to_string(), || 2), 1);
    assert_eq!(cache.get_or_create("b".to_string(), || 3), 3);
    assert_eq!(cache.key, "b");
}
