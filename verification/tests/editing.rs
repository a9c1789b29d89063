use std::collections::VecDeque;
use rush::completion::{find_all_match_in_path, lcp_of_all, longest_common_prefix, sort_names};
use rush::files::{file_matches, DirEntryInfo};
use rush::paths::Platform;
use rush::editor::{builtin_matches, matches_line, EditorAction, Key, LineEditor};

fn hist(v: &[&str]) -> VecDeque<String> {
    v.iter().map(|s| s.to_string()).collect()
}

fn words(v: &[&str]) -> Vec<String> {
    v.iter().map(|s| s.to_string()).collect()
}

fn type_text(e: &mut LineEditor, text: &str, h: &VecDeque<String>) {
    for c in text.chars() {
        assert_eq!(e.handle_key(Key::Char(c), h), EditorAction::Redraw);
    }
}

#[test]
fn editor_typing_and_cursor_moves() {
    let h = hist(&[]);
    let mut e = LineEditor::new(&h);
    type_text(&mut e, "helo", &h);
    e.handle_key(Key::Left, &h);
    e.handle_key(Key::Char('l'), &h);
    assert_eq!(e.line(), "hello");
    assert_eq!(e.cursor(), 4);
    e.handle_key(Key::Right, &h);
    e.handle_key(Key::Right, &h);
    assert_eq!(e.cursor(), 5);
    e.handle_key(Key::Backspace, &h);
    assert_eq!(e.line(), "hell");
    for _ in 0..10 {
        e.handle_key(Key::Left, &h);
    }
    assert_eq!(e.cursor(), 0);
    e.handle_key(Key::Backspace, &h);
    assert_eq!(e.line(), "hell");
    assert_eq!(e.handle_key(Key::Enter, &h), EditorAction::Submit);
}

#[test]
fn editor_backspace_undoes_typing() {
    let h = hist(&[]);
    let mut e = LineEditor::new(&h);
    type_text(&mut e, "abc", &h);
    e.handle_key(Key::Left, &h);
    e.handle_key(Key::Char('x'), &h);
    e.handle_key(Key::Backspace, &h);
    assert_eq!(e.line(), "abc");
    assert_eq!(e.cursor(), 2);
}

#[test]
fn editor_control_keys() {
    let h = hist(&[]);
    let mut e = LineEditor::new(&h);
    type_text(&mut e, "abc", &h);
    assert_eq!(e.handle_key(Key::Control('x'), &h), EditorAction::Redraw);
    assert_eq!(e.line(), "abc");
    assert_eq!(e.handle_key(Key::Control('j'), &h), EditorAction::Submit);
    assert_eq!(e.handle_key(Key::Control('m'), &h), EditorAction::Submit);
    assert_eq!(e.handle_key(Key::Control('d'), &h), EditorAction::Exit);
    assert_eq!(e.handle_key(Key::Control('c'), &h), EditorAction::Cancel);
    assert_eq!(e.line(), "");
    assert_eq!(e.handle_key(Key::Other, &h), EditorAction::Redraw);
}

#[test]
fn editor_history_navigation() {
    let h = hist(&["first", "second"]);
    let mut e = LineEditor::new(&h);
    type_text(&mut e, "draft", &h);
    e.handle_key(Key::Up, &h);
    assert_eq!(e.line(), "second");
    assert_eq!(e.cursor(), 6);
    e.handle_key(Key::Up, &h);
    assert_eq!(e.line(), "first");
    e.handle_key(Key::Up, &h);
    assert_eq!(e.line(), "first");
    e.handle_key(Key::Down, &h);
    assert_eq!(e.line(), "second");
    e.handle_key(Key::Down, &h);
    assert_eq!(e.line(), "");
    e.handle_key(Key::Down, &h);
    assert_eq!(e.line(), "");
}

#[test]
fn editor_tab_completes_builtins() {
    let h = hist(&[]);
    let mut e = LineEditor::new(&h);
    type_text(&mut e, "ec", &h);
    assert_eq!(e.handle_key(Key::Tab, &h), EditorAction::Redraw);
    assert_eq!(e.line(), "echo ");
    assert_eq!(e.cursor(), 5);
    let mut e = LineEditor::new(&h);
    type_text(&mut e, "hi", &h);
    e.handle_key(Key::Tab, &h);
    assert_eq!(e.line(), "history ");
    let mut e = LineEditor::new(&h);
    type_text(&mut e, "e", &h);
    assert_eq!(e.handle_key(Key::Tab, &h), EditorAction::Bell);
    assert_eq!(e.line(), "e");
    assert_eq!(e.handle_key(Key::Tab, &h), EditorAction::ShowMatches);
    assert_eq!(builtin_matches(&e.line()), words(&["echo", "exit"]));
    assert_eq!(e.handle_key(Key::Enter, &h), EditorAction::Submit);
    assert_eq!(e.line(), "e");
    let mut e = LineEditor::new(&h);
    type_text(&mut e, "m", &h);
    e.handle_key(Key::Tab, &h);
    assert_eq!(e.line(), "mkdir ");
}

#[test]
fn editor_tab_completes_files_after_a_space() {
    let h = hist(&[]);
    let entries = vec![
        DirEntryInfo { name: "foo.txt".to_string(), is_dir: false },
        DirEntryInfo { name: "bar".to_string(), is_dir: true },
        DirEntryInfo { name: "baz.rs".to_string(), is_dir: false },
    ];
    let mut e = LineEditor::new(&h);
    type_text(&mut e, "cat fo", &h);
    assert_eq!(e.handle_key(Key::Tab, &h), EditorAction::LookupFiles);
    assert_eq!(e.completion_directory(), ".");
    assert_eq!(e.completion_partial(), "fo");
    let m = file_matches(&e.completion_partial(), &entries);
    assert_eq!(e.complete_with_matches(m), EditorAction::Redraw);
    assert_eq!(e.line(), "cat foo.txt ");

    let mut e = LineEditor::new(&h);
    type_text(&mut e, "cd src/b", &h);
    assert_eq!(e.handle_key(Key::Tab, &h), EditorAction::LookupFiles);
    assert_eq!(e.completion_directory(), "src/");
    assert_eq!(e.completion_partial(), "b");
    let m = file_matches("b", &entries);
    assert_eq!(m, Some(words(&["bar/", "baz.rs"])));
    assert_eq!(e.complete_with_matches(m), EditorAction::Redraw);
    assert_eq!(e.line(), "cd src/ba");

    let mut e = LineEditor::new(&h);
    type_text(&mut e, "cd ba", &h);
    e.handle_key(Key::Tab, &h);
    assert_eq!(e.complete_with_matches(file_matches("bar", &entries)), EditorAction::Redraw);
    assert_eq!(e.line(), "cd bar/");
    assert_eq!(file_matches("zz", &entries), None);
}

#[test]
fn editor_tab_uses_path_matches() {
    let h = hist(&[]);
    let mut e = LineEditor::new(&h);
    type_text(&mut e, "gi", &h);
    assert_eq!(e.handle_key(Key::Tab, &h), EditorAction::LookupPath);
    assert_eq!(e.complete_with_matches(Some(words(&["git"]))), EditorAction::Redraw);
    assert_eq!(e.line(), "git ");

    let mut e = LineEditor::new(&h);
    type_text(&mut e, "xy", &h);
    e.handle_key(Key::Tab, &h);
    assert_eq!(e.complete_with_matches(Some(words(&["xyz_a", "xyz_b"]))), EditorAction::Redraw);
    assert_eq!(e.line(), "xyz_");
    assert_eq!(e.handle_key(Key::Tab, &h), EditorAction::LookupPath);
    assert_eq!(e.complete_with_matches(Some(words(&["xyz_a", "xyz_b"]))), EditorAction::Bell);
    assert_eq!(e.handle_key(Key::Tab, &h), EditorAction::LookupPath);
    assert_eq!(e.complete_with_matches(Some(words(&["xyz_a", "xyz_b"]))), EditorAction::ShowMatches);
    assert_eq!(e.line(), "xyz_");

    let mut e = LineEditor::new(&h);
    type_text(&mut e, "qq", &h);
    e.handle_key(Key::Tab, &h);
    assert_eq!(e.complete_with_matches(None), EditorAction::Bell);
    assert_eq!(e.line(), "qq");
}

#[test]
fn matches_are_listed_with_two_spaces() {
    assert_eq!(matches_line(&words(&["xyz_a", "xyz_b", "xyz_c"])), "xyz_a  xyz_b  xyz_c");
}

#[test]
fn path_matches_are_filtered_and_sorted() {
    let names = words(&["gzip", "git", "grep", "ls", "git-lfs", "gcc"]);
    assert_eq!(find_all_match_in_path(Platform::Unix, "gi", &names), Some(words(&["git", "git-lfs"])));
    assert_eq!(find_all_match_in_path(Platform::Unix, "g", &names), Some(words(&["gcc", "git", "git-lfs", "grep", "gzip"])));
    assert_eq!(find_all_match_in_path(Platform::Unix, "zz", &names), None);
    assert_eq!(find_all_match_in_path(Platform::Unix, "", &names), None);
}

#[test]
fn sorting_orders_like_strings() {
    let names = words(&["b", "a", "ab", "B", "é", "a"]);
    let mut expected = names.clone();
    expected.sort();
    assert_eq!(sort_names(names), expected);
}

#[test]
fn common_prefix_of_first_and_last() {
    assert_eq!(longest_common_prefix(&words(&["xyz_a", "xyz_b", "xyz_c"])), "xyz_");
    assert_eq!(longest_common_prefix(&words(&["abc"])), "abc");
    assert_eq!(longest_common_prefix(&words(&["abc", "abd", "x"])), "");
    assert_eq!(longest_common_prefix(&words(&[])), "");
    assert_eq!(longest_common_prefix(&words(&["ab", "abc"])), "ab");
}

#[test]
fn common_prefix_is_shared_by_all_sorted_names() {
    let names = sort_names(words(&["cargo-fmt", "cargo", "cargo-clippy", "car"]));
    let p = longest_common_prefix(&names);
    assert_eq!(p, "car");
    assert!(names.iter().all(|n| n.starts_with(&p)));
}

#[test]
fn editor_right_undoes_left_and_down_undoes_up() {
    let h = hist(&["one", "two"]);
    let mut e = LineEditor::new(&h);
    type_text(&mut e, "abc", &h);
    e.handle_key(Key::Left, &h);
    e.handle_key(Key::Right, &h);
    assert_eq!(e.cursor(), 3);
    e.handle_key(Key::Up, &h);
    e.handle_key(Key::Up, &h);
    e.handle_key(Key::Up, &h);
    e.handle_key(Key::Down, &h);
    assert_eq!(e.line(), "two");
    assert_eq!(e.cursor(), 3);
}

#[test]
fn common_prefix_of_all_names() {
    let v: Vec<char> = lcp_of_all(&words(&["interstellar", "internet", "interval"]));
    assert_eq!(v.into_iter().collect::<String>(), "inter");
    assert!(lcp_of_all(&words(&[])).is_empty());
}

#[test]
fn windows_path_matches_need_an_extension() {
    let names = words(&["git.exe", "gitk", "git-bash.bat"]);
    assert_eq!(find_all_match_in_path(Platform::Windows, "git", &names), Some(words(&["git-bash.bat", "git.exe"])));
}

#[test]
fn builtin_completion_keeps_the_tab_count() {
    let h = hist(&[]);
    let entries = vec![
        DirEntryInfo { name: "alpha".to_string(), is_dir: false },
        DirEntryInfo { name: "beta".to_string(), is_dir: false },
    ];
    let mut e = LineEditor::new(&h);
    type_text(&mut e, "ec", &h);
    assert_eq!(e.handle_key(Key::Tab, &h), EditorAction::Redraw);
    assert_eq!(e.line(), "echo ");
    assert_eq!(e.handle_key(Key::Tab, &h), EditorAction::LookupFiles);
    assert_eq!(e.complete_with_matches(file_matches(&e.completion_partial(), &entries)), EditorAction::ShowMatches);
    assert_eq!(e.line(), "echo ");
}

#[test]
fn typed_text_is_submitted_as_is() {
    let h = hist(&["old"]);
    let mut e = LineEditor::new(&h);
    type_text(&mut e, "ls -la src", &h);
    assert_eq!(e.handle_key(Key::Enter, &h), EditorAction::Submit);
    assert_eq!(e.line(), "ls -la src");
}
