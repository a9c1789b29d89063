use std::collections::VecDeque;
use rush::history::{exit_functionality, finish_history_write, history_functionality, history_read_error, history_replace_from_file, HistoryAction};

fn hist(v: &[&str]) -> VecDeque<String> {
    v.iter().map(|s| s.to_string()).collect()
}

fn words(v: &[&str]) -> Vec<String> {
    v.iter().map(|s| s.to_string()).collect()
}

fn printed(a: HistoryAction) -> Vec<String> {
    match a {
        HistoryAction::Print(lines) => lines,
        _ => panic!("expected lines to print"),
    }
}

#[test]
fn history_lists_everything() {
    let h = hist(&["echo a", "ls", "history"]);
    let lines = printed(history_functionality(&[], &h, 0));
    assert_eq!(lines, words(&["    1  echo a", "    2  ls", "    3  history"]));
}

#[test]
fn history_lists_last_n() {
    let h = hist(&["a", "b", "c", "d"]);
    let lines = printed(history_functionality(&words(&["2"]), &h, 0));
    assert_eq!(lines, words(&["    3  c", "    4  d"]));
    let lines = printed(history_functionality(&words(&["10"]), &h, 0));
    assert_eq!(lines.len(), 4);
    let lines = printed(history_functionality(&words(&["+1"]), &h, 0));
    assert_eq!(lines, words(&["    4  d"]));
}

#[test]
fn history_zero_or_garbage_lists_everything() {
    let h = hist(&["a", "b"]);
    assert_eq!(printed(history_functionality(&words(&["0"]), &h, 0)).len(), 2);
    assert_eq!(printed(history_functionality(&words(&["x"]), &h, 0)).len(), 2);
    assert_eq!(printed(history_functionality(&words(&["-1"]), &h, 0)).len(), 2);
}

#[test]
fn history_numbers_past_nine() {
    let v: Vec<String> = (0..12).map(|i| format!("c{}", i)).collect();
    let h: VecDeque<String> = v.into_iter().collect();
    let lines = printed(history_functionality(&words(&["1"]), &h, 0));
    assert_eq!(lines, words(&["    12  c11"]));
}

#[test]
fn history_empty() {
    let h = hist(&[]);
    assert_eq!(printed(history_functionality(&[], &h, 0)), words(&["No history found."]));
    assert_eq!(printed(history_functionality(&words(&["3"]), &h, 0)), words(&["No history found."]));
}

#[test]
fn history_usage_lines() {
    let h = hist(&["a"]);
    assert_eq!(printed(history_functionality(&words(&["-r"]), &h, 0)), words(&["Usage: history -r <file_path>"]));
    assert_eq!(printed(history_functionality(&words(&["-a"]), &h, 0)), words(&["Usage: history -a <file_path>"]));
    assert_eq!(printed(history_functionality(&words(&["-w"]), &h, 0)), words(&["Usage: history -w <file_path>"]));
}

#[test]
fn history_file_actions() {
    let h = hist(&["a", "b", "c"]);
    match history_functionality(&words(&["-r", "f"]), &h, 0) {
        HistoryAction::ReadFile(p) => assert_eq!(p, "f"),
        _ => panic!(),
    }
    match history_functionality(&words(&["-w", "f"]), &h, 1) {
        HistoryAction::WriteFile { path, lines, written_through } => {
            assert_eq!(path, "f");
            assert_eq!(lines, words(&["a", "b", "c"]));
            assert_eq!(written_through, 3);
        }
        _ => panic!(),
    }
    match history_functionality(&words(&["-a", "f"]), &h, 1) {
        HistoryAction::AppendFile { path, lines, written_through } => {
            assert_eq!(path, "f");
            assert_eq!(lines, words(&["b", "c"]));
            assert_eq!(written_through, 3);
        }
        _ => panic!(),
    }
}

#[test]
fn history_append_after_write_appends_only_new() {
    let mut h = hist(&["a", "b"]);
    let written = match history_functionality(&words(&["-w", "f"]), &h, 0) {
        HistoryAction::WriteFile { written_through, .. } => written_through,
        _ => panic!(),
    };
    h.push_back("c".to_string());
    h.push_back("d".to_string());
    match history_functionality(&words(&["-a", "f"]), &h, written) {
        HistoryAction::AppendFile { lines, written_through, .. } => {
            assert_eq!(lines, words(&["c", "d"]));
            assert_eq!(written_through, 4);
        }
        _ => panic!(),
    }
    match history_functionality(&words(&["-a", "f"]), &h, 4) {
        HistoryAction::AppendFile { lines, .. } => assert!(lines.is_empty()),
        _ => panic!(),
    }
    match history_functionality(&words(&["-a", "f"]), &h, 9) {
        HistoryAction::AppendFile { lines, .. } => assert!(lines.is_empty()),
        _ => panic!(),
    }
}

#[test]
fn history_read_replaces_history() {
    let mut h = hist(&["old", "history -r f"]);
    history_replace_from_file(&mut h, "x\r\ny\n\nz");
    assert_eq!(h, hist(&["x", "y", "", "z"]));
    let mut h = hist(&[]);
    history_replace_from_file(&mut h, "a\n");
    assert_eq!(h, hist(&["a"]));
}

#[test]
fn history_write_outcome() {
    let mut last = 1;
    assert_eq!(finish_history_write(&mut last, 5, None), None);
    assert_eq!(last, 5);
    assert_eq!(finish_history_write(&mut last, 9, Some("denied")), Some("Error writing history to file: denied".to_string()));
    assert_eq!(last, 5);
}

#[test]
fn exit_persists_history() {
    let h = hist(&["a", "b"]);
    assert!(exit_functionality(None, &h, 0).is_none());
    match exit_functionality(Some("hist.txt"), &h, 0) {
        Some(HistoryAction::WriteFile { path, lines, written_through }) => {
            assert_eq!(path, "hist.txt");
            assert_eq!(lines, words(&["a", "b"]));
            assert_eq!(written_through, 2);
        }
        _ => panic!(),
    }
}

#[test]
fn history_read_error_line() {
    assert_eq!(history_read_error("nofile"), "Error reading history from file: nofile");
}
