use outliner::window_state::{CursorError, Direction, WindowState};
use outliner::{TodoItem, TodoList};

fn leaf(title: &str) -> TodoItem {
    TodoItem::create(title.to_string())
}

fn node(title: &str, children: Vec<TodoItem>) -> TodoItem {
    let mut n = leaf(title);
    n.contents = children;
    n
}

fn doc(items: Vec<TodoItem>) -> TodoList {
    let mut l = TodoList::create("list".to_string(), "/tmp/list.todo".to_string());
    l.contents = items;
    l
}

fn titles(items: &Vec<TodoItem>) -> Vec<String> {
    items.iter().map(|i| i.title.clone()).collect()
}

fn path(s: &WindowState) -> Vec<usize> {
    s.cursor_path().clone()
}

#[test]
fn create_list_and_item() {
    let l = TodoList::create("groceries".to_string(), "./groceries.todo".to_string());
    assert_eq!(l.name, "groceries");
    assert_eq!(l.path, "./groceries.todo");
    assert!(l.contents.is_empty());
    let i = TodoItem::create("milk".to_string());
    assert_eq!(i.title, "milk");
    assert!(!i.ticked_off);
    assert!(i.contents.is_empty());
}

#[test]
fn groceries_insert_then_append() {
    let mut s = WindowState::new(TodoList::create("groceries".to_string(), "g.todo".to_string()));
    s.insert_before("milk".to_string());
    s.append_after("eggs".to_string());
    assert_eq!(titles(&s.cur_loaded_list().contents), vec!["milk", "eggs"]);
    assert_eq!(s.last_cur(), 1);
    assert!(s.changes);
}

#[test]
fn push_then_pop_children() {
    let mut s = WindowState::new(doc(vec![node("a", vec![leaf("b"), leaf("c")])]));
    assert_eq!(s.push_cur(0), Ok(()));
    assert_eq!(s.cur_depth(), 2);
    assert_eq!(s.cur_item().unwrap().title, "b");
    assert_eq!(s.pop_cur(), Ok(0));
    assert_eq!(s.cur_depth(), 1);
    assert_eq!(s.cur_item().unwrap().title, "a");
}

#[test]
fn goto_from_end_on_five_items() {
    let mut s = WindowState::new(doc(vec![leaf("1"), leaf("2"), leaf("3"), leaf("4"), leaf("5")]));
    assert!(s.goto("-1"));
    assert_eq!(s.last_cur(), 4);
    assert!(s.goto("-5"));
    assert_eq!(s.last_cur(), 0);
    assert!(s.goto("2"));
    assert_eq!(s.last_cur(), 1);
}

#[test]
fn goto_rejects_bad_text_and_range() {
    let mut s = WindowState::new(doc(vec![leaf("1"), leaf("2"), leaf("3"), leaf("4"), leaf("5")]));
    assert!(s.goto("3"));
    assert!(!s.goto("abc"));
    assert!(!s.goto(""));
    assert!(!s.goto("0"));
    assert!(!s.goto("6"));
    assert!(!s.goto("-6"));
    assert!(!s.goto("99999999999999999999999999"));
    assert!(!s.goto("3-"));
    assert!(!s.goto("1-2"));
    assert_eq!(s.last_cur(), 2);
}

#[test]
fn goto_index_counts_from_either_end() {
    let mut s = WindowState::new(doc(vec![leaf("1"), leaf("2"), leaf("3")]));
    assert!(s.goto_index(3, false));
    assert_eq!(s.last_cur(), 2);
    assert!(s.goto_index(3, true));
    assert_eq!(s.last_cur(), 0);
    assert!(!s.goto_index(0, true));
    assert_eq!(s.last_cur(), 0);
}

#[test]
fn move_sibling_up_from_first_rotates() {
    let mut s = WindowState::new(doc(vec![leaf("a"), leaf("b"), leaf("c")]));
    assert!(s.move_sibling(Direction::Up));
    assert_eq!(titles(&s.cur_loaded_list().contents), vec!["b", "c", "a"]);
    assert_eq!(s.last_cur(), 2);
    assert_eq!(s.cur_item().unwrap().title, "a");
}

#[test]
fn move_sibling_down_from_last_rotates() {
    let mut s = WindowState::new(doc(vec![leaf("a"), leaf("b"), leaf("c")]));
    assert!(s.goto_index(3, false));
    assert!(s.move_sibling(Direction::Down));
    assert_eq!(titles(&s.cur_loaded_list().contents), vec!["c", "a", "b"]);
    assert_eq!(s.last_cur(), 0);
}

#[test]
fn move_sibling_swaps_neighbours() {
    let mut s = WindowState::new(doc(vec![leaf("a"), leaf("b"), leaf("c")]));
    assert!(s.goto_index(2, false));
    assert!(s.move_sibling(Direction::Up));
    assert_eq!(titles(&s.cur_loaded_list().contents), vec!["b", "a", "c"]);
    assert_eq!(s.last_cur(), 0);
    assert!(s.move_sibling(Direction::Down));
    assert_eq!(titles(&s.cur_loaded_list().contents), vec!["a", "b", "c"]);
    assert_eq!(s.last_cur(), 1);
}

#[test]
fn move_sibling_needs_two_nodes() {
    let mut s = WindowState::new(doc(vec![leaf("a")]));
    assert!(!s.move_sibling(Direction::Up));
    assert!(!s.changes);
}

#[test]
fn move_down_then_up_returns() {
    let mut s = WindowState::new(doc(vec![leaf("a"), leaf("b"), leaf("c"), leaf("d")]));
    s.move_cur_down(1);
    for amount in [0usize, 1, 3, 4, 7, 1000, usize::MAX] {
        s.move_cur_down(amount);
        s.move_cur_up(amount);
        assert_eq!(s.last_cur(), 1);
    }
}

#[test]
fn move_wraps_around() {
    let mut s = WindowState::new(doc(vec![leaf("a"), leaf("b"), leaf("c")]));
    s.move_cur_up(1);
    assert_eq!(s.last_cur(), 2);
    s.move_cur_down(1);
    assert_eq!(s.last_cur(), 0);
    s.move_cur_down(5);
    assert_eq!(s.last_cur(), 2);
    s.move_cur_up(7);
    assert_eq!(s.last_cur(), 1);
}

#[test]
fn move_on_empty_list_is_noop() {
    let mut s = WindowState::new(doc(vec![]));
    s.move_cur_down(3);
    s.move_cur_up(3);
    assert_eq!(path(&s), vec![0]);
    assert!(!s.has_items());
}

#[test]
fn delete_last_reclamps_to_new_last() {
    let mut s = WindowState::new(doc(vec![leaf("a"), leaf("b"), leaf("c")]));
    assert!(s.goto_index(3, false));
    assert!(s.delete_current());
    assert_eq!(s.last_cur(), 1);
    assert_eq!(titles(&s.cur_loaded_list().contents), vec!["a", "b"]);
    assert_eq!(s.history.as_ref().unwrap().title, "c");
    assert!(s.changes);
}

#[test]
fn delete_only_child_pops_depth() {
    let mut s = WindowState::new(doc(vec![leaf("x"), node("a", vec![leaf("b")])]));
    assert!(s.goto_index(2, false));
    assert_eq!(s.push_cur(0), Ok(()));
    assert!(s.delete_current());
    assert_eq!(path(&s), vec![1]);
    assert!(s.cur_loaded_list().contents[1].contents.is_empty());
}

#[test]
fn delete_only_top_item_stays_at_top() {
    let mut s = WindowState::new(doc(vec![leaf("a")]));
    assert!(s.delete_current());
    assert_eq!(path(&s), vec![0]);
    assert!(!s.has_items());
    assert!(!s.delete_current());
}

#[test]
fn delete_then_restore_round_trip() {
    let mut s = WindowState::new(doc(vec![leaf("a"), node("b", vec![leaf("b1")]), leaf("c")]));
    assert!(s.goto_index(2, false));
    assert!(s.delete_current());
    assert_eq!(titles(&s.cur_loaded_list().contents), vec!["a", "c"]);
    assert!(s.restore_from_history());
    assert!(s.history.is_none());
    let l = &s.cur_loaded_list().contents;
    assert_eq!(titles(l), vec!["a", "b", "c"]);
    assert_eq!(l[1].contents[0].title, "b1");
    assert_eq!(s.last_cur(), 1);
    assert!(!s.restore_from_history());
    assert_eq!(titles(&s.cur_loaded_list().contents), vec!["a", "b", "c"]);
}

#[test]
fn restore_after_reclamp_lands_before_neighbour() {
    let mut s = WindowState::new(doc(vec![leaf("a"), leaf("b")]));
    assert!(s.goto_index(2, false));
    assert!(s.delete_current());
    assert!(s.restore_from_history());
    assert_eq!(titles(&s.cur_loaded_list().contents), vec!["b", "a"]);
}

#[test]
fn reparent_in_then_out_restores() {
    let mut s = WindowState::new(doc(vec![leaf("a"), node("b", vec![leaf("b1")]), leaf("c")]));
    assert!(s.goto_index(3, false));
    assert!(s.reparent_in());
    assert_eq!(path(&s), vec![1, 1]);
    assert_eq!(titles(&s.cur_loaded_list().contents), vec!["a", "b"]);
    assert_eq!(titles(&s.cur_loaded_list().contents[1].contents), vec!["b1", "c"]);
    assert!(s.reparent_out());
    assert_eq!(path(&s), vec![2]);
    assert_eq!(titles(&s.cur_loaded_list().contents), vec!["a", "b", "c"]);
    assert_eq!(titles(&s.cur_loaded_list().contents[1].contents), vec!["b1"]);
}

#[test]
fn reparent_preconditions() {
    let mut s = WindowState::new(doc(vec![node("a", vec![leaf("a1")]), leaf("b")]));
    assert!(!s.reparent_in());
    assert!(!s.reparent_out());
    assert_eq!(s.push_cur(0), Ok(()));
    assert!(!s.reparent_out());
    assert!(!s.changes);
}

#[test]
fn insert_child_descends() {
    let mut s = WindowState::new(doc(vec![node("a", vec![leaf("a1")])]));
    assert!(s.insert_child("a2".to_string()));
    assert_eq!(path(&s), vec![0, 1]);
    assert_eq!(titles(&s.cur_loaded_list().contents[0].contents), vec!["a1", "a2"]);
    let mut e = WindowState::new(doc(vec![]));
    assert!(!e.insert_child("x".to_string()));
}

#[test]
fn toggle_and_rename_selection() {
    let mut s = WindowState::new(doc(vec![leaf("a")]));
    assert!(s.toggle());
    assert!(s.cur_item().unwrap().ticked_off);
    assert!(s.rename("z".to_string()));
    assert_eq!(s.cur_item().unwrap().title, "z");
    assert!(s.toggle());
    assert!(!s.cur_item().unwrap().ticked_off);
    let mut e = WindowState::new(doc(vec![]));
    assert!(!e.toggle());
    assert!(!e.rename("q".to_string()));
    assert!(!e.changes);
}

#[test]
fn cursor_errors() {
    let mut s = WindowState::new(doc(vec![leaf("a")]));
    assert_eq!(s.pop_cur(), Err(CursorError::MinDepth));
    assert_eq!(s.push_cur(0), Err(CursorError::Depth));
    assert_eq!(s.cur(1), Err(CursorError::Depth));
    assert_eq!(s.cur(0), Ok(0));
    assert_eq!(s.first_cur(), 0);
    assert_eq!(s.set_cur(&[3]), Err(CursorError::Depth));
    let e = WindowState::new(doc(vec![]));
    assert!(matches!(e.cur_item(), Err(CursorError::Depth)));
}

#[test]
fn set_cur_prefixes_top_level_zero() {
    let mut s = WindowState::new(doc(vec![node("a", vec![leaf("a1"), node("a2", vec![leaf("x")])])]));
    assert_eq!(s.set_cur(&[1, 0]), Ok(()));
    assert_eq!(path(&s), vec![0, 1, 0]);
    assert_eq!(s.cur_item().unwrap().title, "x");
    assert_eq!(s.set_cur(&[0, 0]), Err(CursorError::Depth));
    assert_eq!(path(&s), vec![0, 1, 0]);
    s.reset_cur();
    assert_eq!(path(&s), vec![0]);
}

#[test]
fn switch_to_resident_or_new_list() {
    let mut s = WindowState::new(TodoList::create("one".to_string(), "one.todo".to_string()));
    s.insert_before("x".to_string());
    s.switch_list(TodoList::create("two".to_string(), "two.todo".to_string()));
    assert_eq!(s.cur_loaded_list().name, "two");
    assert!(!s.changes && !s.destructive_changes && s.history.is_none());
    s.switch_list(TodoList::create("other".to_string(), "one.todo".to_string()));
    assert_eq!(s.cur_loaded_list().name, "one");
    assert_eq!(titles(&s.cur_loaded_list().contents), vec!["x"]);
    assert_eq!(path(&s), vec![0]);
}

#[test]
fn reload_replaces_items_and_resets_cursor() {
    let mut s = WindowState::new(doc(vec![leaf("a"), leaf("b")]));
    assert!(s.goto_index(2, false));
    s.reload_list(doc(vec![leaf("fresh")]));
    assert_eq!(titles(&s.cur_loaded_list().contents), vec!["fresh"]);
    assert_eq!(s.cur_loaded_list().name, "list");
    assert_eq!(path(&s), vec![0]);
}

#[test]
fn list_name_path_and_flags() {
    let mut s = WindowState::new(doc(vec![]));
    s.set_list_name("renamed".to_string());
    assert_eq!(s.cur_loaded_list().name, "renamed");
    assert!(s.changes);
    s.set_list_path("/tmp/elsewhere.todo".to_string());
    assert_eq!(s.cur_loaded_list().path, "/tmp/elsewhere.todo");
    s.mark_saved();
    assert!(!s.changes && !s.destructive_changes);
    s.mark_file_removed();
    assert!(s.changes && s.destructive_changes);
}

#[test]
fn parent_list_follows_depth() {
    let mut s = WindowState::new(doc(vec![node("a", vec![leaf("a1"), leaf("a2")])]));
    assert_eq!(s.cur_parent_list().len(), 1);
    assert_eq!(s.push_cur(1), Ok(()));
    assert_eq!(titles(s.cur_parent_list()), vec!["a1", "a2"]);
    assert_eq!(s.last_cur(), 1);
}
