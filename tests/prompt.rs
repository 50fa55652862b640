use outliner::line_edit::{backward_word, forward_word, path_completions, split_path, LineEditor};

fn chars(s: &str) -> Vec<char> {
    s.chars().collect()
}

fn text(v: &Vec<char>) -> String {
    v.iter().collect()
}

#[test]
fn word_motion_forward() {
    let t = chars("ab cd");
    let mut pos = 0usize;
    forward_word(&mut pos, &t);
    assert_eq!(pos, 1);
    pos = 2;
    forward_word(&mut pos, &t);
    assert_eq!(pos, 4);
    pos = 5;
    forward_word(&mut pos, &t);
    assert_eq!(pos, 5);
}

#[test]
fn word_motion_backward() {
    let t = chars("ab cd");
    let mut pos = 4usize;
    backward_word(&mut pos, &t);
    assert_eq!(pos, 3);
    pos = 3;
    backward_word(&mut pos, &t);
    assert_eq!(pos, 0);
    pos = 5;
    backward_word(&mut pos, &t);
    assert_eq!(pos, 3);
    pos = 0;
    backward_word(&mut pos, &t);
    assert_eq!(pos, 0);
    let mut p2 = 2usize;
    backward_word(&mut p2, &chars(" x"));
    assert_eq!(p2, 1);
    p2 = 1;
    backward_word(&mut p2, &chars(" x"));
    assert_eq!(p2, 0);
}

#[test]
fn split_path_at_last_slash() {
    let (d, f) = split_path(&chars("a/b/c"));
    assert_eq!(text(&d.unwrap()), "a/b");
    assert_eq!(text(&f), "c");
    let (d, f) = split_path(&chars("abc"));
    assert!(d.is_none());
    assert_eq!(text(&f), "abc");
    let (d, f) = split_path(&chars("/x"));
    assert_eq!(text(&d.unwrap()), "");
    assert_eq!(text(&f), "x");
}

#[test]
fn completions_keep_matching_names_in_order() {
    let names = vec![chars("alpha"), chars("beta"), chars("alps")];
    let got: Vec<String> = path_completions(&names, &chars("al")).iter().map(text).collect();
    assert_eq!(got, vec!["alpha", "alps"]);
    assert_eq!(path_completions(&names, &chars("")).len(), 3);
    assert!(path_completions(&names, &chars("alphabet")).is_empty());
}

#[test]
fn editor_inserts_and_deletes_at_edit_point() {
    let mut e = LineEditor::new(chars("ab"));
    assert_eq!(e.position(), 2);
    e.insert('c');
    assert_eq!(text(e.buffer()), "abc");
    e.left();
    e.left();
    e.insert('x');
    assert_eq!(text(e.buffer()), "axbc");
    assert_eq!(e.position(), 2);
    e.backspace();
    assert_eq!(text(e.buffer()), "abc");
    assert_eq!(e.position(), 1);
    for _ in 0..5 {
        e.right();
    }
    assert_eq!(e.position(), 3);
    e.word_back();
    assert_eq!(e.position(), 0);
    e.backspace();
    assert_eq!(text(e.buffer()), "abc");
    e.word_forward();
    assert_eq!(e.position(), 2);
}

#[test]
fn editor_cycles_and_reverts_completions() {
    let mut e = LineEditor::new(chars("ab"));
    e.complete(&vec![]);
    assert_eq!(text(e.buffer()), "ab");
    let cands = vec![chars("one"), chars("two")];
    e.complete(&cands);
    assert_eq!(text(e.buffer()), "one");
    assert_eq!(text(e.completion_source()), "ab");
    e.complete(&cands);
    assert_eq!(text(e.buffer()), "two");
    e.complete(&cands);
    assert_eq!(text(e.buffer()), "one");
    e.revert();
    assert_eq!(text(e.buffer()), "ab");
    assert_eq!(e.position(), 2);
    e.revert();
    assert_eq!(text(e.buffer()), "ab");
}
