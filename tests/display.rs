use outliner::menu::{picker_choice, select_step, MenuKey, MenuOutcome, PickerChoice};
use outliner::viewport::{calc_item_length, color_band, percentage, scroll_offset, ticked_items, visible_lines, Band};
use outliner::window_state::WindowState;
use outliner::goto_input::parse_goto;
use outliner::{TodoItem, TodoList};

fn leaf(title: &str) -> TodoItem {
    TodoItem::create(title.to_string())
}

fn node(title: &str, children: Vec<TodoItem>) -> TodoItem {
    let mut n = leaf(title);
    n.contents = children;
    n
}

fn state(items: Vec<TodoItem>) -> WindowState {
    let mut l = TodoList::create("list".to_string(), "list.todo".to_string());
    l.contents = items;
    WindowState::new(l)
}

fn rows(s: &WindowState, offset: usize, amount: usize) -> Vec<(usize, String, bool)> {
    visible_lines(s, offset, amount).into_iter().map(|l| (l.depth, l.title, l.selected)).collect()
}

#[test]
fn rows_expand_along_cursor_path() {
    let mut s = state(vec![node("a", vec![leaf("b"), leaf("c")]), node("d", vec![leaf("e")])]);
    assert_eq!(s.push_cur(1), Ok(()));
    assert_eq!(
        rows(&s, 0, 10),
        vec![
            (0, "a".to_string(), false),
            (1, "b".to_string(), false),
            (1, "c".to_string(), true),
            (0, "d".to_string(), false),
        ]
    );
    assert_eq!(rows(&s, 0, 2).len(), 2);
    assert_eq!(rows(&s, 1, 10), vec![(0, "d".to_string(), false)]);
    assert_eq!(rows(&s, 7, 10), vec![]);
}

#[test]
fn selected_node_shows_children_others_collapse() {
    let mut s = state(vec![node("a", vec![leaf("b")]), node("d", vec![leaf("e")])]);
    s.move_cur_down(1);
    assert_eq!(
        rows(&s, 0, 10),
        vec![(0, "a".to_string(), false), (0, "d".to_string(), true), (1, "e".to_string(), false)]
    );
}

#[test]
fn item_height_counts_rows() {
    let mut s = state(vec![node("a", vec![leaf("b"), node("c", vec![leaf("c1")])]), leaf("d")]);
    assert_eq!(s.push_cur(1), Ok(()));
    assert_eq!(calc_item_length(&s, 0, 100), 4);
    assert_eq!(calc_item_length(&s, 0, 2), 2);
    assert_eq!(calc_item_length(&s, 1, 100), 1);
}

#[test]
fn scroll_offset_keeps_selection_centred() {
    let items: Vec<TodoItem> = (0..10).map(|i| leaf(&i.to_string())).collect();
    let mut s = state(items);
    assert!(s.goto_index(10, false));
    assert_eq!(scroll_offset(&s, 20), 2);
    assert_eq!(scroll_offset(&s, 4), 9);
    assert_eq!(scroll_offset(&s, 100), 0);
    s.reset_cur();
    assert_eq!(scroll_offset(&s, 20), 0);
}

#[test]
fn scroll_offset_counts_expanded_rows() {
    let mut items: Vec<TodoItem> = (0..9).map(|i| leaf(&i.to_string())).collect();
    items.push(node("big", vec![leaf("x"), leaf("y"), leaf("z")]));
    let mut s = state(items);
    assert!(s.goto_index(10, false));
    assert_eq!(scroll_offset(&s, 20), 5);
}

#[test]
fn progress_figures() {
    let mut s = state(vec![leaf("a"), leaf("b"), leaf("c")]);
    assert!(s.toggle());
    assert_eq!(ticked_items(&s), 1);
    assert_eq!(percentage(1, 3), 33);
    assert_eq!(percentage(2, 3), 66);
    assert_eq!(percentage(3, 3), 100);
    assert_eq!(percentage(0, 0), 0);
    assert_eq!(percentage(usize::MAX, usize::MAX), 100);
    assert_eq!(color_band(33), Band::Low);
    assert_eq!(color_band(34), Band::Middle);
    assert_eq!(color_band(66), Band::Middle);
    assert_eq!(color_band(67), Band::High);
}

#[test]
fn menu_keys() {
    assert_eq!(select_step(0, 3, MenuKey::Up), MenuOutcome::Moved(2));
    assert_eq!(select_step(2, 3, MenuKey::Down), MenuOutcome::Moved(0));
    assert_eq!(select_step(1, 3, MenuKey::Down), MenuOutcome::Moved(2));
    assert_eq!(select_step(2, 3, MenuKey::WheelDown), MenuOutcome::Moved(2));
    assert_eq!(select_step(0, 3, MenuKey::WheelUp), MenuOutcome::Moved(0));
    assert_eq!(select_step(1, 3, MenuKey::Enter), MenuOutcome::Chosen(1));
    assert_eq!(select_step(1, 3, MenuKey::Quit), MenuOutcome::Cancelled);
    assert_eq!(select_step(1, 3, MenuKey::Other), MenuOutcome::Unrecognised);
}

#[test]
fn goto_text_parsing() {
    assert_eq!(parse_goto("12"), Some((12, false)));
    assert_eq!(parse_goto("+7"), Some((7, false)));
    assert_eq!(parse_goto("-3"), Some((3, true)));
    assert_eq!(parse_goto("3-"), None);
    assert_eq!(parse_goto("1-2"), None);
    assert_eq!(parse_goto("-+3"), Some((3, true)));
    assert_eq!(parse_goto("--3"), None);
    assert_eq!(parse_goto("-"), None);
    assert_eq!(parse_goto("1 2"), None);
    assert_eq!(parse_goto("18446744073709551615"), Some((usize::MAX, false)));
    assert_eq!(parse_goto("18446744073709551616"), None);
}

#[test]
fn picker_entries() {
    assert_eq!(picker_choice(0, 2), PickerChoice::Listed(0));
    assert_eq!(picker_choice(1, 2), PickerChoice::Listed(1));
    assert_eq!(picker_choice(2, 2), PickerChoice::NewList);
    assert_eq!(picker_choice(3, 2), PickerChoice::OtherList);
    assert_eq!(picker_choice(0, 0), PickerChoice::NewList);
}
