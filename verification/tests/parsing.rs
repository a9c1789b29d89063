use rush::command::{execute_pipeline, parse_redirection, split_pipeline, StageCommand};
use rush::parser::parse_args;

fn words(v: &[&str]) -> Vec<String> {
    v.iter().map(|s| s.to_string()).collect()
}

#[test]
fn parse_plain_words() {
    let (args, pipe) = parse_args("echo hello   world");
    assert_eq!(args, words(&["echo", "hello", "world"]));
    assert!(!pipe);
}

#[test]
fn parse_tabs_separate_words() {
    let (args, _) = parse_args("a\tb");
    assert_eq!(args, words(&["a", "b"]));
}

#[test]
fn parse_single_quotes_keep_spaces_and_backslashes() {
    let (args, pipe) = parse_args("echo 'hello   world' 'a\\b'");
    assert_eq!(args, words(&["echo", "hello   world", "a\\b"]));
    assert!(!pipe);
}

#[test]
fn parse_double_quotes_and_escapes() {
    let (args, _) = parse_args("echo \"a \\\"b\\\" c\" d\\ e");
    assert_eq!(args, words(&["echo", "a \"b\" c", "d e"]));
}

#[test]
fn parse_adjacent_quotes_join() {
    let (args, _) = parse_args("echo 'hello''world' \"x\"'y'");
    assert_eq!(args, words(&["echo", "helloworld", "xy"]));
}

#[test]
fn parse_empty_quotes_give_empty_words() {
    let (args, _) = parse_args("a '' b \"\"");
    assert_eq!(args, words(&["a", "", "b", ""]));
}

#[test]
fn parse_pipeline_flag() {
    let (args, pipe) = parse_args("ls | grep src");
    assert_eq!(args, words(&["ls", "|", "grep", "src"]));
    assert!(pipe);
    let (_, pipe) = parse_args("echo a\\|b");
    assert!(!pipe);
    let (_, pipe) = parse_args("echo 'a|b'");
    assert!(!pipe);
    let (_, pipe) = parse_args("echo \"|\"");
    assert!(!pipe);
}

#[test]
fn parse_trailing_backslash_is_dropped() {
    let (args, _) = parse_args("ab\\");
    assert_eq!(args, words(&["ab"]));
}

#[test]
fn parse_unicode_words() {
    let (args, _) = parse_args("échο 'ünï cödé'");
    assert_eq!(args, words(&["échο", "ünï cödé"]));
}

#[test]
fn redirection_stdout_overwrite() {
    let r = parse_redirection(words(&["echo", "hello", ">", "out.txt"]));
    assert_eq!(r.parts, words(&["echo", "hello"]));
    assert_eq!(r.file, Some("out.txt".to_string()));
    assert!(!r.to_stderr);
    assert!(!r.append);
}

#[test]
fn redirection_kinds() {
    let r = parse_redirection(words(&["ls", "/x", "2>", "err.log"]));
    assert!(r.to_stderr && !r.append);
    let r = parse_redirection(words(&["echo", "w", ">>", "o"]));
    assert!(!r.to_stderr && r.append);
    let r = parse_redirection(words(&["echo", "w", "1>>", "o"]));
    assert!(!r.to_stderr && r.append);
    let r = parse_redirection(words(&["echo", "w", "2>>", "o"]));
    assert!(r.to_stderr && r.append);
    let r = parse_redirection(words(&["echo", "w", "1>", "o"]));
    assert!(!r.to_stderr && !r.append);
    assert_eq!(r.parts, words(&["echo", "w"]));
}

#[test]
fn redirection_first_operator_wins() {
    let r = parse_redirection(words(&["a", "2>", "e", ">", "o"]));
    assert_eq!(r.parts, words(&["a"]));
    assert_eq!(r.file, Some("e".to_string()));
    assert!(r.to_stderr);
}

#[test]
fn redirection_without_file_keeps_words() {
    let r = parse_redirection(words(&["echo", "hi", ">>"]));
    assert_eq!(r.parts, words(&["echo", "hi", ">>"]));
    assert_eq!(r.file, None);
    assert!(r.append);
}

#[test]
fn redirection_absent() {
    let r = parse_redirection(words(&["echo", "a>b"]));
    assert_eq!(r.parts, words(&["echo", "a>b"]));
    assert_eq!(r.file, None);
    assert!(!r.to_stderr && !r.append);
}

#[test]
fn pipeline_segments() {
    let segs = split_pipeline(&words(&["ls", "-l", "|", "grep", "src", "|", "wc"]));
    assert_eq!(segs, vec![words(&["ls", "-l"]), words(&["grep", "src"]), words(&["wc"])]);
    let segs = split_pipeline(&words(&["ls", "|"]));
    assert_eq!(segs, vec![words(&["ls"]), words(&[])]);
    let segs = split_pipeline(&words(&[]));
    assert_eq!(segs, vec![words(&[])]);
}

#[test]
fn pipeline_stages() {
    let segs = vec![words(&["echo", "hello", "world"]), words(&["cat"]), words(&["wc", "-c"])];
    let stages = execute_pipeline(&segs);
    assert_eq!(stages.len(), 3);
    match &stages[0].command {
        StageCommand::Internal(args) => assert_eq!(*args, words(&["--internal-run", "echo", "hello", "world"])),
        StageCommand::External(_, _) => panic!("echo is a builtin"),
    }
    match &stages[2].command {
        StageCommand::External(p, args) => {
            assert_eq!(p, "wc");
            assert_eq!(*args, words(&["-c"]));
        }
        StageCommand::Internal(_) => panic!("wc is not a builtin"),
    }
    assert!(!stages[0].stdin_piped && stages[0].stdout_piped);
    assert!(stages[1].stdin_piped && stages[1].stdout_piped);
    assert!(stages[2].stdin_piped && !stages[2].stdout_piped);
}

#[test]
fn blank_separates_independent_halves() {
    let a = "ls -l";
    let b = "'my dir' x\\ y";
    let (whole, pipe) = parse_args(&format!("{} {}", a, b));
    let (wa, pa) = parse_args(a);
    let (wb, pb) = parse_args(b);
    let mut joined = wa.clone();
    joined.extend(wb);
    assert_eq!(whole, joined);
    assert_eq!(pipe, pa || pb);
}

#[test]
fn single_quotes_keep_text_as_one_word() {
    let (args, pipe) = parse_args("'a \"b\" \\c |d'");
    assert_eq!(args, words(&["a \"b\" \\c |d"]));
    assert!(!pipe);
}

#[test]
fn backslash_takes_next_character() {
    for c in [' ', '\'', '"', '\\', '|', 'x'] {
        let (args, pipe) = parse_args(&format!("\\{}", c));
        assert_eq!(args, vec![c.to_string()]);
        assert!(!pipe);
    }
}

#[test]
fn segments_rejoin_to_the_command() {
    let parts = words(&["a", "|", "b", "c", "|", "|", "d"]);
    let segs = split_pipeline(&parts);
    let mut back: Vec<String> = Vec::new();
    for (i, s) in segs.iter().enumerate() {
        if i > 0 {
            back.push("|".to_string());
        }
        back.extend(s.iter().cloned());
        assert!(s.iter().all(|w| w != "|"));
    }
    assert_eq!(back, parts);
}

#[test]
fn double_quotes_keep_text_as_one_word() {
    let (args, pipe) = parse_args("\"it's  a word\"");
    assert_eq!(args, words(&["it's  a word"]));
    assert!(!pipe);
}

#[test]
fn backslash_in_double_quotes_follows_posix() {
    let (args, _) = parse_args("echo \"a\\nb\"");
    assert_eq!(args, words(&["echo", "a\\nb"]));
    let (args, _) = parse_args("\"\\$x \\` \\\" \\\\\"");
    assert_eq!(args, words(&["$x ` \" \\"]));
}

#[test]
fn backslash_newline_is_removed() {
    let (args, _) = parse_args("ab\\\ncd");
    assert_eq!(args, words(&["abcd"]));
}

#[test]
fn plain_words_round_trip() {
    let ws = words(&["cargo", "build", "--release", "-j4"]);
    assert_eq!(parse_args(&ws.join(" ")), (ws.clone(), false));
}
