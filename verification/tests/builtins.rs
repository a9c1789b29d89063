use rush::builtins::{echo_functionality, get_command, type_functionality, type_lookup_report, ShellBuiltins, TypeReport};
use rush::cd::{cd_functionality, cd_outcome, no_such_directory, CdAction};
use rush::paths::{command_not_found, exe_extensions, first_executable, has_executable_suffix, is_executable_path, Platform};
use rush::files::{ls_error, ls_functionality, ls_listing, mkdir_error, mkdir_functionality, DirEntryInfo};

fn words(v: &[&str]) -> Vec<String> {
    v.iter().map(|s| s.to_string()).collect()
}

#[test]
fn get_command_recognises_builtins() {
    assert_eq!(get_command("echo"), Some(ShellBuiltins::ECHO));
    assert_eq!(get_command("exit"), Some(ShellBuiltins::EXIT));
    assert_eq!(get_command("type"), Some(ShellBuiltins::TYPE));
    assert_eq!(get_command("pwd"), Some(ShellBuiltins::PWD));
    assert_eq!(get_command("cd"), Some(ShellBuiltins::CD));
    assert_eq!(get_command("history"), Some(ShellBuiltins::HISTORY));
    assert_eq!(get_command("ls"), Some(ShellBuiltins::LS));
    assert_eq!(get_command("mkdir"), Some(ShellBuiltins::MKDIR));
    assert_eq!(get_command("cls"), Some(ShellBuiltins::CLS));
    assert_eq!(get_command("cat"), None);
    assert_eq!(get_command("ECHO"), None);
    assert_eq!(get_command(""), None);
}

#[test]
fn echo_joins_with_spaces() {
    assert_eq!(echo_functionality(&words(&["hello", "big", "world"])), "hello big world");
    assert_eq!(echo_functionality(&words(&[])), "");
    assert_eq!(echo_functionality(&words(&["a  b"])), "a  b");
}

#[test]
fn type_reports_builtins() {
    match type_functionality(&words(&["type", "echo"])) {
        TypeReport::Line(l) => assert_eq!(l, "echo is a shell builtin"),
        _ => panic!("echo is a builtin"),
    }
    match type_functionality(&words(&["type", "cat"])) {
        TypeReport::LookupPath(n) => assert_eq!(n, "cat"),
        _ => panic!("cat needs a lookup"),
    }
    assert!(matches!(type_functionality(&words(&["type"])), TypeReport::Nothing));
}

#[test]
fn type_lookup_lines() {
    assert_eq!(type_lookup_report("ls", Some("/bin/ls")), "ls is /bin/ls");
    assert_eq!(type_lookup_report("nope", None), "nope: not found");
}

#[test]
fn cd_plans() {
    assert!(matches!(cd_functionality(&words(&["cd"])), CdAction::Nothing));
    match cd_functionality(&words(&["cd", "a", "b"])) {
        CdAction::Print(l) => assert_eq!(l, "too many arguments"),
        _ => panic!(),
    }
    match cd_functionality(&words(&["cd", "/usr/local"])) {
        CdAction::Absolute(p) => assert_eq!(p, "/usr/local"),
        _ => panic!(),
    }
    assert!(matches!(cd_functionality(&words(&["cd", "~"])), CdAction::Home(None)));
    match cd_functionality(&words(&["cd", "~/docs/sub"])) {
        CdAction::Home(Some(p)) => assert_eq!(p, "docs/sub"),
        _ => panic!(),
    }
    assert!(matches!(cd_functionality(&words(&["cd", ".."])), CdAction::Parent(None)));
    match cd_functionality(&words(&["cd", "../src/bin"])) {
        CdAction::Parent(Some(p)) => assert_eq!(p, "src/bin"),
        _ => panic!(),
    }
    assert!(matches!(cd_functionality(&words(&["cd", "."])), CdAction::Nothing));
    match cd_functionality(&words(&["cd", "./src"])) {
        CdAction::Current(p) => assert_eq!(p, "src"),
        _ => panic!(),
    }
    match cd_functionality(&words(&["cd", "src"])) {
        CdAction::Print(l) => assert_eq!(l, "cd: src: No such file or directory"),
        _ => panic!(),
    }
}

#[test]
fn cd_missing_directory_notice() {
    assert_eq!(no_such_directory("x/y"), "cd: x/y: No such file or directory");
}

#[test]
fn executable_bits() {
    let u = Platform::Unix;
    let none: Vec<bool> = vec![false];
    assert!(is_executable_path(u, true, Some(0o755), &none));
    assert!(is_executable_path(u, true, Some(0o001), &none));
    assert!(is_executable_path(u, true, Some(0o010), &none));
    assert!(!is_executable_path(u, true, Some(0o644), &none));
    assert!(!is_executable_path(u, false, Some(0o755), &none));
    assert!(!is_executable_path(u, true, None, &none));
    assert!(!is_executable_path(u, false, None, &vec![true]));
}

#[test]
fn windows_executables() {
    let w = Platform::Windows;
    assert_eq!(exe_extensions(w), words(&["exe", "bat", "cmd", "com"]));
    assert_eq!(exe_extensions(Platform::Unix), words(&[""]));
    assert!(is_executable_path(w, true, None, &vec![false; 4]));
    assert!(!is_executable_path(w, false, None, &vec![false; 4]));
    assert!(is_executable_path(w, false, None, &vec![false, false, true, false]));
    assert!(has_executable_suffix(w, "tool.exe"));
    assert!(has_executable_suffix(w, "run.bat"));
    assert!(!has_executable_suffix(w, "notes.txt"));
    assert!(has_executable_suffix(Platform::Unix, "notes.txt"));
}

fn entry(name: &str, is_dir: bool) -> DirEntryInfo {
    DirEntryInfo { name: name.to_string(), is_dir }
}

#[test]
fn ls_lists_sorted_with_directory_marks() {
    assert_eq!(ls_functionality(&words(&["ls"])), ".");
    assert_eq!(ls_functionality(&words(&["ls", "src"])), "src");
    let entries = vec![entry("b.txt", false), entry("src", true), entry("a", false)];
    assert_eq!(ls_listing(&entries), words(&["a", "b.txt", "src/"]));
    assert_eq!(ls_error("nope"), "ls: nope: No such file or directory");
}

#[test]
fn mkdir_plans() {
    match mkdir_functionality(&words(&["mkdir"])) {
        Err(m) => assert_eq!(m, "mkdir: missing operand"),
        Ok(_) => panic!(),
    }
    match mkdir_functionality(&words(&["mkdir", "a/b", "c"])) {
        Ok(d) => assert_eq!(d, words(&["a/b", "c"])),
        Err(_) => panic!(),
    }
    assert_eq!(mkdir_error("x", "denied"), "mkdir: cannot create directory 'x': denied");
}

#[test]
fn cd_outcomes() {
    assert_eq!(cd_outcome("/tmp", true), None);
    assert_eq!(cd_outcome("nx", false), Some("cd: nx: No such file or directory".to_string()));
}

#[test]
fn search_path_choices() {
    assert_eq!(first_executable(&vec![false, true, true]), Some(1));
    assert_eq!(first_executable(&vec![false, false]), None);
    assert_eq!(command_not_found("frob"), "frob: command not found");
}
