use vstd::prelude::*;
use std::collections::VecDeque;
use crate::text::{views, str_is, decimal, spec_decimal, parse_usize, spec_parse_usize, split_lines, spec_lines, is_digit, unsigned_digits};

verus! {

broadcast use vstd::std_specs::vecdeque::group_vec_dequeue_axioms;

/// One numbered line of the history listing: four spaces, the entry's
/// number counted from one, two spaces and the command.
pub open spec fn history_line(i: nat, cmd: Seq<char>) -> Seq<char> {
    "    "@ + spec_decimal(i + 1) + "  "@ + cmd
}

/// The numbered listing of the entries of `h` from index `start` on.
pub open spec fn listing(h: Seq<Seq<char>>, start: nat) -> Seq<Seq<char>> {
    Seq::new((h.len() - start) as nat, |k: int| history_line((start + k) as nat, h[start + k]))
}

pub open spec fn no_history_message() -> Seq<char> {
    "No history found."@
}

/// The listing from `start` on, or the notice that there is no history.
pub open spec fn listing_or_notice(h: Seq<Seq<char>>, start: nat) -> Seq<Seq<char>> {
    if h.len() == 0 {
        seq![no_history_message()]
    } else {
        listing(h, start)
    }
}

/// The entries not yet written to a file, given how many were.
pub open spec fn unwritten(h: Seq<Seq<char>>, last_written: nat) -> Seq<Seq<char>> {
    if last_written >= h.len() {
        Seq::empty()
    } else {
        h.skip(last_written as int)
    }
}

/// What the `history` builtin asks to be done.
pub enum HistoryAction {
    /// Write these lines to the command's output.
    Print(Vec<String>),
    /// Replace the history with the lines of this file.
    ReadFile(String),
    /// Append these lines to the file; once they are written, the first
    /// `written_through` entries count as written.
    AppendFile { path: String, lines: Vec<String>, written_through: usize },
    /// Overwrite the file with these lines; once they are written, the
    /// first `written_through` entries count as written.
    WriteFile { path: String, lines: Vec<String>, written_through: usize },
}

pub open spec fn prints(a: HistoryAction, lines: Seq<Seq<char>>) -> bool {
    a matches HistoryAction::Print(out) && views(out@) == lines
}

/// The action for `history` with arguments `parts`, history `h` and the
/// first `last` entries already written to a file.
pub open spec fn history_plan(a: HistoryAction, parts: Seq<Seq<char>>, h: Seq<Seq<char>>, last: nat) -> bool {
    if parts.len() >= 1 && parts[0] == "-r"@ {
        if parts.len() >= 2 {
            a matches HistoryAction::ReadFile(p) && p@ == parts[1]
        } else {
            prints(a, seq!["Usage: history -r <file_path>"@])
        }
    } else if parts.len() >= 1 && parts[0] == "-a"@ {
        if parts.len() >= 2 {
            a matches HistoryAction::AppendFile { path, lines, written_through } && path@ == parts[1]
                && views(lines@) == unwritten(h, last) && written_through == h.len()
        } else {
            prints(a, seq!["Usage: history -a <file_path>"@])
        }
    } else if parts.len() >= 1 && parts[0] == "-w"@ {
        if parts.len() >= 2 {
            a matches HistoryAction::WriteFile { path, lines, written_through } && path@ == parts[1]
                && views(lines@) == h && written_through == h.len()
        } else {
            prints(a, seq!["Usage: history -w <file_path>"@])
        }
    } else if parts.len() >= 1 && spec_parse_usize(parts[0]) is Some && spec_parse_usize(parts[0])->0 > 0 {
        let n = spec_parse_usize(parts[0])->0;
        prints(a, listing_or_notice(h, if n >= h.len() { 0 } else { (h.len() - n) as nat }))
    } else {
        prints(a, listing_or_notice(h, 0))
    }
}

fn one_line(s: &str) -> (res: Vec<String>)
    ensures
        views(res@) == seq![s@],
{
    let mut v: Vec<String> = Vec::new();
    v.push(String::from_str(s));
    assert(views(v@) =~= seq![s@]);
    v
}

/// The numbered listing of the history from entry `start` on.
fn list_history(history: &VecDeque<String>, start: usize) -> (res: Vec<String>)
    requires
        history@.len() > 0,
        start <= history@.len(),
    ensures
        views(res@) == listing_or_notice(views(history@), start as nat),
{
    let mut out: Vec<String> = Vec::new();
    let ghost h = views(history@);
    let mut i: usize = start;
    proof {
        reveal_strlit("    ");
        reveal_strlit("  ");
    }
    while i < history.len()
        invariant
            start <= i <= history@.len(),
            h == views(history@),
            views(out@) =~= Seq::new((i - start) as nat, |k: int| history_line((start + k) as nat, h[start + k])),
        decreases history.len() - i,
    {
        let ghost before = views(out@);
        let mut line = String::from_str("    ");
        let number = decimal(i + 1);
        line.append(number.as_str());
        line.append("  ");
        line.append(history[i].as_str());
        assert(line@ == history_line(i as nat, h[i as int]));
        out.push(line);
        assert(views(out@) =~= before.push(history_line(i as nat, h[i as int])));
        i = i + 1;
    }
    out
}

/// The `history` builtin: `-r FILE` reads the history from a file, `-a
/// FILE` appends the entries not yet written, `-w FILE` writes them all,
/// a positive number `N` lists the last `N` entries, and anything else
/// lists the whole history.
pub fn history_functionality(parts: &[String], history: &VecDeque<String>, last_written_index: usize) -> (res: HistoryAction)
    ensures
        history_plan(res, views(parts@), views(history@), last_written_index as nat),
{
    let ghost p = views(parts@);
    let ghost h = views(history@);
    proof {
        reveal_strlit("-r");
        reveal_strlit("-a");
        reveal_strlit("-w");
    }
    if parts.len() >= 1 {
        let first = parts[0].as_str();
        if str_is(first, "-r") {
            if parts.len() >= 2 {
                return HistoryAction::ReadFile(parts[1].clone());
            } else {
                return HistoryAction::Print(one_line("Usage: history -r <file_path>"));
            }
        } else if str_is(first, "-a") {
            if parts.len() >= 2 {
                let mut lines: Vec<String> = Vec::new();
                let start = if last_written_index < history.len() { last_written_index } else { history.len() };
                let mut i: usize = start;
                assert(views(lines@) =~= h.subrange(start as int, start as int));
                while i < history.len()
                    invariant
                        start <= i <= history@.len(),
                        h == views(history@),
                        views(lines@) =~= h.subrange(start as int, i as int),
                    decreases history.len() - i,
                {
                    let ghost before = views(lines@);
                    lines.push(history[i].clone());
                    assert(views(lines@) =~= before.push(h[i as int]));
                    i = i + 1;
                }
                assert(views(lines@) =~= unwritten(h, last_written_index as nat));
                return HistoryAction::AppendFile {
                    path: parts[1].clone(),
                    lines,
                    written_through: history.len(),
                };
            } else {
                return HistoryAction::Print(one_line("Usage: history -a <file_path>"));
            }
        } else if str_is(first, "-w") {
            if parts.len() >= 2 {
                let mut lines: Vec<String> = Vec::new();
                let mut i: usize = 0;
                assert(views(lines@) =~= Seq::<Seq<char>>::empty());
                while i < history.len()
                    invariant
                        i <= history@.len(),
                        h == views(history@),
                        views(lines@) =~= h.subrange(0, i as int),
                    decreases history.len() - i,
                {
                    let ghost before = views(lines@);
                    lines.push(history[i].clone());
                    assert(views(lines@) =~= before.push(h[i as int]));
                    i = i + 1;
                }
                assert(h.subrange(0, h.len() as int) == h);
                return HistoryAction::WriteFile {
                    path: parts[1].clone(),
                    lines,
                    written_through: history.len(),
                };
            } else {
                return HistoryAction::Print(one_line("Usage: history -w <file_path>"));
            }
        } else {
            match parse_usize(first) {
                Some(n) => {
                    if n > 0 {
                        if history.len() == 0 {
                            return HistoryAction::Print(one_line("No history found."));
                        }
                        let start = if n >= history.len() { 0 } else { history.len() - n };
                        return HistoryAction::Print(list_history(history, start));
                    }
                },
                None => {},
            }
        }
    }
    if history.len() == 0 {
        HistoryAction::Print(one_line("No history found."))
    } else {
        HistoryAction::Print(list_history(history, 0))
    }
}

/// The history after `history -r`: exactly the lines read from the file.
pub fn history_replace_from_file(history: &mut VecDeque<String>, contents: &str)
    ensures
        views(final(history)@) == spec_lines(contents@),
{
    let lines = split_lines(contents);
    let mut fresh: VecDeque<String> = VecDeque::new();
    let mut i: usize = 0;
    assert(views(fresh@) =~= views(lines@).subrange(0, 0));
    while i < lines.len()
        invariant
            i <= lines@.len(),
            views(fresh@) =~= views(lines@).subrange(0, i as int),
        decreases lines.len() - i,
    {
        let ghost before = views(fresh@);
        fresh.push_back(lines[i].clone());
        assert(views(fresh@) =~= before.push(lines@[i as int]@));
        i = i + 1;
    }
    assert(views(lines@).subrange(0, lines@.len() as int) == views(lines@));
    *history = fresh;
}

/// The end of `history -a` or `history -w`: when the lines were written,
/// the first `written_through` entries count as written and nothing is
/// printed; when writing failed with the error `error`, the count stays
/// as it was and the notice to print is returned.
pub fn finish_history_write(last_written_index: &mut usize, written_through: usize, error: Option<&str>) -> (res: Option<String>)
    ensures
        error is None ==> *final(last_written_index) == written_through && res is None,
        error is Some ==> *final(last_written_index) == *old(last_written_index),
        error matches Some(e) ==> (res matches Some(m) && m@ == "Error writing history to file: "@ + e@),
{
    match error {
        None => {
            *last_written_index = written_through;
            None
        },
        Some(e) => {
            let mut msg = String::from_str("Error writing history to file: ");
            msg.append(e);
            Some(msg)
        },
    }
}

/// What `exit` does with the history: when `HISTFILE` names a file, the
/// whole history is written to it, as `history -w` would.
pub fn exit_functionality(histfile: Option<&str>, history: &VecDeque<String>, last_written_index: usize) -> (res: Option<HistoryAction>)
    ensures
        histfile is None ==> res is None,
        histfile matches Some(f) ==> (res matches Some(a) && history_plan(a, seq!["-w"@, f@], views(history@), last_written_index as nat)),
{
    match histfile {
        None => None,
        Some(f) => {
            let mut parts: Vec<String> = Vec::new();
            parts.push(String::from_str("-w"));
            parts.push(String::from_str(f));
            assert(views(parts@) =~= seq!["-w"@, f@]);
            Some(history_functionality(parts.as_slice(), history, last_written_index))
        },
    }
}

/// The notice for a history file that could not be read.
pub fn history_read_error(path: &str) -> (res: String)
    ensures
        res@ == "Error reading history from file: "@ + path@,
{
    let mut msg = String::from_str("Error reading history from file: ");
    msg.append(path);
    msg
}

/// `history -a` appends only what is new: once the first `h.len()`
/// entries have been written (by `-w` or `-a`), and the commands `e` have
/// been run since, `history -a FILE` appends exactly `e` and then counts
/// every entry as written.
pub proof fn lemma_append_writes_only_new(parts: Seq<Seq<char>>, h: Seq<Seq<char>>, e: Seq<Seq<char>>, a: HistoryAction)
    requires
        parts.len() >= 2,
        parts[0] == "-a"@,
        history_plan(a, parts, h + e, h.len()),
    ensures
        a matches HistoryAction::AppendFile { lines, written_through, .. } && views(lines@) == e
            && written_through == h.len() + e.len(),
{
    reveal_strlit("-a");
    reveal_strlit("-r");
    assert("-a"@ != "-r"@) by {
        assert("-a"@[1] != "-r"@[1]);
    }
    if e.len() > 0 {
        assert((h + e).skip(h.len() as int) =~= e);
    } else {
        assert(e =~= Seq::<Seq<char>>::empty());
    }
}

/// `history N` lists the last `N` entries (all of them when there are
/// fewer), oldest first, each numbered by its place in the whole history.
pub proof fn lemma_history_lists_last_entries(parts: Seq<Seq<char>>, h: Seq<Seq<char>>, last: nat, a: HistoryAction, n: nat)
    requires
        parts.len() >= 1,
        spec_parse_usize(parts[0]) == Some(n),
        n > 0,
        h.len() > 0,
        history_plan(a, parts, h, last),
    ensures
        ({
            let c = if n < h.len() { n } else { h.len() };
            a matches HistoryAction::Print(out) && views(out@).len() == c && forall|k: int| 0 <= k < c ==> #[trigger] views(out@)[k]
                == "    "@ + spec_decimal((h.len() - c + k + 1) as nat) + "  "@ + h[h.len() - c + k]
        }),
{
    reveal_strlit("-r");
    reveal_strlit("-a");
    reveal_strlit("-w");
    assert(!is_digit('-'));
    if parts[0] == "-r"@ || parts[0] == "-a"@ || parts[0] == "-w"@ {
        assert(parts[0][0] == '-');
        assert(unsigned_digits(parts[0]) == parts[0]);
        assert(!is_digit(unsigned_digits(parts[0])[0]));
    }
    let c = if n < h.len() { n } else { h.len() };
    let start: nat = if n >= h.len() { 0 } else { (h.len() - n) as nat };
    assert(start == h.len() - c);
}

} // verus!
