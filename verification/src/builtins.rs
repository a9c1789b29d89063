use vstd::prelude::*;
use crate::text::{views, str_is, chars_of, join, spec_join};

verus! {

/// The commands the shell runs itself.
#[derive(PartialEq, Eq, Structural, Clone, Copy, Debug)]
pub enum ShellBuiltins {
    ECHO,
    PWD,
    CD,
    LS,
    MKDIR,
    TYPE,
    HISTORY,
    CLS,
    EXIT,
}

/// The name under which each builtin is typed.
pub open spec fn builtin_name(b: ShellBuiltins) -> Seq<char> {
    match b {
        ShellBuiltins::ECHO => seq!['e', 'c', 'h', 'o'],
        ShellBuiltins::PWD => seq!['p', 'w', 'd'],
        ShellBuiltins::CD => seq!['c', 'd'],
        ShellBuiltins::LS => seq!['l', 's'],
        ShellBuiltins::MKDIR => seq!['m', 'k', 'd', 'i', 'r'],
        ShellBuiltins::TYPE => seq!['t', 'y', 'p', 'e'],
        ShellBuiltins::HISTORY => seq!['h', 'i', 's', 't', 'o', 'r', 'y'],
        ShellBuiltins::CLS => seq!['c', 'l', 's'],
        ShellBuiltins::EXIT => seq!['e', 'x', 'i', 't'],
    }
}

/// The builtin a command name denotes, if any.
pub open spec fn spec_get_command(name: Seq<char>) -> Option<ShellBuiltins> {
    if name == builtin_name(ShellBuiltins::ECHO) {
        Some(ShellBuiltins::ECHO)
    } else if name == builtin_name(ShellBuiltins::PWD) {
        Some(ShellBuiltins::PWD)
    } else if name == builtin_name(ShellBuiltins::CD) {
        Some(ShellBuiltins::CD)
    } else if name == builtin_name(ShellBuiltins::LS) {
        Some(ShellBuiltins::LS)
    } else if name == builtin_name(ShellBuiltins::MKDIR) {
        Some(ShellBuiltins::MKDIR)
    } else if name == builtin_name(ShellBuiltins::TYPE) {
        Some(ShellBuiltins::TYPE)
    } else if name == builtin_name(ShellBuiltins::HISTORY) {
        Some(ShellBuiltins::HISTORY)
    } else if name == builtin_name(ShellBuiltins::CLS) {
        Some(ShellBuiltins::CLS)
    } else if name == builtin_name(ShellBuiltins::EXIT) {
        Some(ShellBuiltins::EXIT)
    } else {
        None
    }
}

proof fn lemma_reveal_builtin_names()
    ensures
        "echo"@ == builtin_name(ShellBuiltins::ECHO),
        "pwd"@ == builtin_name(ShellBuiltins::PWD),
        "cd"@ == builtin_name(ShellBuiltins::CD),
        "ls"@ == builtin_name(ShellBuiltins::LS),
        "mkdir"@ == builtin_name(ShellBuiltins::MKDIR),
        "type"@ == builtin_name(ShellBuiltins::TYPE),
        "history"@ == builtin_name(ShellBuiltins::HISTORY),
        "cls"@ == builtin_name(ShellBuiltins::CLS),
        "exit"@ == builtin_name(ShellBuiltins::EXIT),
{
    reveal_strlit("echo");
    reveal_strlit("pwd");
    reveal_strlit("cd");
    reveal_strlit("ls");
    reveal_strlit("mkdir");
    reveal_strlit("type");
    reveal_strlit("history");
    reveal_strlit("cls");
    reveal_strlit("exit");
    assert("echo"@ =~= builtin_name(ShellBuiltins::ECHO));
    assert("pwd"@ =~= builtin_name(ShellBuiltins::PWD));
    assert("cd"@ =~= builtin_name(ShellBuiltins::CD));
    assert("ls"@ =~= builtin_name(ShellBuiltins::LS));
    assert("mkdir"@ =~= builtin_name(ShellBuiltins::MKDIR));
    assert("type"@ =~= builtin_name(ShellBuiltins::TYPE));
    assert("history"@ =~= builtin_name(ShellBuiltins::HISTORY));
    assert("cls"@ =~= builtin_name(ShellBuiltins::CLS));
    assert("exit"@ =~= builtin_name(ShellBuiltins::EXIT));
}

/// Looks a command name up among the builtins.
pub fn get_command(command: &str) -> (res: Option<ShellBuiltins>)
    ensures
        res == spec_get_command(command@),
{
    proof {
        lemma_reveal_builtin_names();
    }
    if str_is(command, "echo") {
        Some(ShellBuiltins::ECHO)
    } else if str_is(command, "pwd") {
        Some(ShellBuiltins::PWD)
    } else if str_is(command, "cd") {
        Some(ShellBuiltins::CD)
    } else if str_is(command, "ls") {
        Some(ShellBuiltins::LS)
    } else if str_is(command, "mkdir") {
        Some(ShellBuiltins::MKDIR)
    } else if str_is(command, "type") {
        Some(ShellBuiltins::TYPE)
    } else if str_is(command, "history") {
        Some(ShellBuiltins::HISTORY)
    } else if str_is(command, "cls") {
        Some(ShellBuiltins::CLS)
    } else if str_is(command, "exit") {
        Some(ShellBuiltins::EXIT)
    } else {
        None
    }
}

/// The builtins in the order in which completion tries them.
pub open spec fn all_builtins() -> Seq<ShellBuiltins> {
    seq![
        ShellBuiltins::ECHO,
        ShellBuiltins::PWD,
        ShellBuiltins::CD,
        ShellBuiltins::LS,
        ShellBuiltins::MKDIR,
        ShellBuiltins::TYPE,
        ShellBuiltins::HISTORY,
        ShellBuiltins::CLS,
        ShellBuiltins::EXIT,
    ]
}

/// The names of all builtins, in completion order.
pub open spec fn all_builtin_names() -> Seq<Seq<char>> {
    all_builtins().map_values(|b: ShellBuiltins| builtin_name(b))
}

/// The names of all builtins, in completion order, as characters.
pub fn all_strings() -> (res: Vec<Vec<char>>)
    ensures
        res@.len() == all_builtin_names().len(),
        forall|i: int| 0 <= i < res@.len() ==> #[trigger] res@[i]@ == all_builtin_names()[i],
{
    proof {
        lemma_reveal_builtin_names();
    }
    let mut res: Vec<Vec<char>> = Vec::new();
    res.push(chars_of("echo"));
    res.push(chars_of("pwd"));
    res.push(chars_of("cd"));
    res.push(chars_of("ls"));
    res.push(chars_of("mkdir"));
    res.push(chars_of("type"));
    res.push(chars_of("history"));
    res.push(chars_of("cls"));
    res.push(chars_of("exit"));
    res
}

/// Every builtin is found again under its name, so the names that
/// completion offers are the commands that the shell runs itself.
pub proof fn lemma_builtin_names_are_commands(b: ShellBuiltins)
    ensures
        spec_get_command(builtin_name(b)) == Some(b),
        all_builtins().contains(b),
{
    assert(builtin_name(ShellBuiltins::PWD).len() != builtin_name(ShellBuiltins::ECHO).len());
    assert(builtin_name(ShellBuiltins::CD).len() != builtin_name(ShellBuiltins::ECHO).len());
    assert(builtin_name(ShellBuiltins::CD).len() != builtin_name(ShellBuiltins::PWD).len());
    assert(builtin_name(ShellBuiltins::LS).len() != builtin_name(ShellBuiltins::ECHO).len());
    assert(builtin_name(ShellBuiltins::LS).len() != builtin_name(ShellBuiltins::PWD).len());
    assert(builtin_name(ShellBuiltins::LS)[0] != builtin_name(ShellBuiltins::CD)[0]);
    assert(builtin_name(ShellBuiltins::MKDIR).len() != builtin_name(ShellBuiltins::ECHO).len());
    assert(builtin_name(ShellBuiltins::MKDIR).len() != builtin_name(ShellBuiltins::PWD).len());
    assert(builtin_name(ShellBuiltins::MKDIR).len() != builtin_name(ShellBuiltins::CD).len());
    assert(builtin_name(ShellBuiltins::MKDIR).len() != builtin_name(ShellBuiltins::LS).len());
    assert(builtin_name(ShellBuiltins::TYPE)[0] != builtin_name(ShellBuiltins::ECHO)[0]);
    assert(builtin_name(ShellBuiltins::TYPE).len() != builtin_name(ShellBuiltins::PWD).len());
    assert(builtin_name(ShellBuiltins::TYPE).len() != builtin_name(ShellBuiltins::CD).len());
    assert(builtin_name(ShellBuiltins::TYPE).len() != builtin_name(ShellBuiltins::LS).len());
    assert(builtin_name(ShellBuiltins::TYPE).len() != builtin_name(ShellBuiltins::MKDIR).len());
    assert(builtin_name(ShellBuiltins::HISTORY).len() != builtin_name(ShellBuiltins::ECHO).len());
    assert(builtin_name(ShellBuiltins::HISTORY).len() != builtin_name(ShellBuiltins::PWD).len());
    assert(builtin_name(ShellBuiltins::HISTORY).len() != builtin_name(ShellBuiltins::CD).len());
    assert(builtin_name(ShellBuiltins::HISTORY).len() != builtin_name(ShellBuiltins::LS).len());
    assert(builtin_name(ShellBuiltins::HISTORY).len() != builtin_name(ShellBuiltins::MKDIR).len());
    assert(builtin_name(ShellBuiltins::HISTORY).len() != builtin_name(ShellBuiltins::TYPE).len());
    assert(builtin_name(ShellBuiltins::CLS).len() != builtin_name(ShellBuiltins::ECHO).len());
    assert(builtin_name(ShellBuiltins::CLS)[0] != builtin_name(ShellBuiltins::PWD)[0]);
    assert(builtin_name(ShellBuiltins::CLS).len() != builtin_name(ShellBuiltins::CD).len());
    assert(builtin_name(ShellBuiltins::CLS).len() != builtin_name(ShellBuiltins::LS).len());
    assert(builtin_name(ShellBuiltins::CLS).len() != builtin_name(ShellBuiltins::MKDIR).len());
    assert(builtin_name(ShellBuiltins::CLS).len() != builtin_name(ShellBuiltins::TYPE).len());
    assert(builtin_name(ShellBuiltins::CLS).len() != builtin_name(ShellBuiltins::HISTORY).len());
    assert(builtin_name(ShellBuiltins::EXIT)[1] != builtin_name(ShellBuiltins::ECHO)[1]);
    assert(builtin_name(ShellBuiltins::EXIT).len() != builtin_name(ShellBuiltins::PWD).len());
    assert(builtin_name(ShellBuiltins::EXIT).len() != builtin_name(ShellBuiltins::CD).len());
    assert(builtin_name(ShellBuiltins::EXIT).len() != builtin_name(ShellBuiltins::LS).len());
    assert(builtin_name(ShellBuiltins::EXIT).len() != builtin_name(ShellBuiltins::MKDIR).len());
    assert(builtin_name(ShellBuiltins::EXIT)[0] != builtin_name(ShellBuiltins::TYPE)[0]);
    assert(builtin_name(ShellBuiltins::EXIT).len() != builtin_name(ShellBuiltins::HISTORY).len());
    assert(builtin_name(ShellBuiltins::EXIT).len() != builtin_name(ShellBuiltins::CLS).len());
    match b {
        ShellBuiltins::ECHO => assert(all_builtins()[0] == b),
        ShellBuiltins::PWD => assert(all_builtins()[1] == b),
        ShellBuiltins::CD => assert(all_builtins()[2] == b),
        ShellBuiltins::LS => assert(all_builtins()[3] == b),
        ShellBuiltins::MKDIR => assert(all_builtins()[4] == b),
        ShellBuiltins::TYPE => assert(all_builtins()[5] == b),
        ShellBuiltins::HISTORY => assert(all_builtins()[6] == b),
        ShellBuiltins::CLS => assert(all_builtins()[7] == b),
        ShellBuiltins::EXIT => assert(all_builtins()[8] == b),
    }
}

/// Only a builtin's exact name denotes it: no other word, such as a
/// longer name that starts with it, is taken for a builtin.
pub proof fn lemma_only_builtin_names_are_builtins(n: Seq<char>)
    ensures
        spec_get_command(n) matches Some(b) ==> n == builtin_name(b),
        spec_get_command(n) is None ==> forall|b: ShellBuiltins| n != #[trigger] builtin_name(b),
{
    assert forall|b: ShellBuiltins| spec_get_command(n) is None implies n != #[trigger] builtin_name(b) by {
        lemma_builtin_names_are_commands(b);
    }
}

/// The line `echo` prints: its arguments separated by single spaces.
pub fn echo_functionality(parts: &[String]) -> (res: String)
    ensures
        res@ == spec_join(views(parts@), " "@),
{
    join(parts, " ")
}

/// What `type` reports about a name.
pub enum TypeReport {
    /// No name was given: nothing is printed.
    Nothing,
    /// Print this line.
    Line(String),
    /// Look this name up on the search path, then report with
    /// `type_lookup_report`.
    LookupPath(String),
}

/// The `type` builtin: says whether its argument is a builtin; for any
/// other name the search path decides.
pub fn type_functionality(parts: &Vec<String>) -> (res: TypeReport)
    ensures
        parts@.len() < 2 ==> res is Nothing,
        parts@.len() >= 2 && spec_get_command(parts@[1]@) is Some ==> (res matches TypeReport::Line(l)
            && l@ == parts@[1]@ + " is a shell builtin"@),
        parts@.len() >= 2 && spec_get_command(parts@[1]@) is None ==> (res matches TypeReport::LookupPath(n)
            && n@ == parts@[1]@),
{
    if parts.len() < 2 {
        return TypeReport::Nothing;
    }
    match get_command(parts[1].as_str()) {
        Some(_) => {
            let mut line = parts[1].clone();
            line.append(" is a shell builtin");
            TypeReport::Line(line)
        },
        None => TypeReport::LookupPath(parts[1].clone()),
    }
}

/// What `type` prints once the search path has been consulted: the path
/// that was found, or that the name was not found.
pub fn type_lookup_report(name: &str, found: Option<&str>) -> (res: String)
    ensures
        found matches Some(p) ==> res@ == name@ + " is "@ + p@,
        found is None ==> res@ == name@ + ": not found"@,
{
    let mut line = String::from_str(name);
    match found {
        Some(p) => {
            line.append(" is ");
            line.append(p);
        },
        None => {
            line.append(": not found");
        },
    }
    line
}

} // verus!
